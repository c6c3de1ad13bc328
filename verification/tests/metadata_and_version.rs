use vlp::utils::{find, format_version_number, generate_lockscreen_number, replace_id_and_title, replace_tag};

fn count_occurrences(hay: &[u8], needle: &[u8]) -> usize {
    let mut count = 0;
    let mut i = 0;
    while i + needle.len() <= hay.len() {
        if &hay[i..i + needle.len()] == needle {
            count += 1;
        }
        i += 1;
    }
    count
}

#[test]
fn find_returns_first_occurrence() {
    let hay = b"abcabc".to_vec();
    let needle = b"bc".to_vec();
    assert_eq!(find(&hay, &needle), Some(1));
    let missing = b"xyz".to_vec();
    assert_eq!(find(&hay, &missing), None);
}

#[test]
fn replace_tag_swaps_the_first_payload() {
    let content = b"<a><id>OLD</id><id>TWO</id></a>".to_vec();
    let st = b"<id>".to_vec();
    let et = b"</id>".to_vec();
    let nv = b"NEW".to_vec();
    let out = replace_tag(&content, &st, &et, &nv).unwrap();
    assert_eq!(out, b"<a><id>NEW</id><id>TWO</id></a>".to_vec());
}

#[test]
fn replace_tag_fails_when_a_tag_is_missing() {
    let content = b"<a>no tags here</a>".to_vec();
    let st = b"<id>".to_vec();
    let et = b"</id>".to_vec();
    let nv = b"NEW".to_vec();
    assert_eq!(replace_tag(&content, &st, &et, &nv), None);
    let only_open = b"<a><id>OLD</a>".to_vec();
    assert_eq!(replace_tag(&only_open, &st, &et, &nv), None);
}

#[test]
fn metadata_patch_rewrites_id_and_title() {
    let content = b"<theme><id>OLD</id><title locale=\"zh_CN\"><![CDATA[Old Title]]></title></theme>"
        .to_vec();
    let nv = b"20240101123".to_vec();
    let out = replace_id_and_title(&content, &nv).unwrap();
    assert_eq!(
        out,
        b"<theme><id>20240101123</id><title locale=\"zh_CN\"><![CDATA[20240101123]]></title></theme>"
            .to_vec()
    );
}

#[test]
fn metadata_patch_fails_atomically_when_title_is_absent() {
    let content = b"<theme><id>OLD</id></theme>".to_vec();
    let nv = b"20240101123".to_vec();
    assert_eq!(replace_id_and_title(&content, &nv), None);
}

#[test]
fn patching_twice_leaves_one_id_and_one_title_holding_the_second_number() {
    let content = b"<theme><id>OLD</id><title locale=\"zh_CN\"><![CDATA[Old]]></title></theme>"
        .to_vec();
    let n1 = b"20240101111".to_vec();
    let n2 = b"20240202222".to_vec();
    let once = replace_id_and_title(&content, &n1).unwrap();
    let twice = replace_id_and_title(&once, &n2).unwrap();
    assert_eq!(count_occurrences(&twice, b"<id>"), 1);
    assert_eq!(count_occurrences(&twice, b"</id>"), 1);
    assert_eq!(count_occurrences(&twice, b"<title locale=\"zh_CN\"><![CDATA["), 1);
    assert_eq!(count_occurrences(&twice, b"]]></title>"), 1);
    assert_eq!(count_occurrences(&twice, &n2), 2);
    assert_eq!(count_occurrences(&twice, &n1), 0);
    // the round trip through the first number changes nothing else
    assert_eq!(twice, replace_id_and_title(&content, &n2).unwrap());
}

#[test]
fn version_number_formats_the_date_and_draw() {
    assert_eq!(format_version_number(2024, 3, 7, 123), b"20240307123".to_vec());
    assert_eq!(format_version_number(1000, 12, 31, 998), b"10001231998".to_vec());
    assert_eq!(format_version_number(9999, 1, 1, 100), b"99990101100".to_vec());
}

#[test]
fn generated_number_has_the_documented_shape() {
    let v = generate_lockscreen_number();
    assert_eq!(v.len(), 11);
    assert!(v.iter().all(|b| (b'0'..=b'9').contains(b)));
    let month: u32 = (v[4] - b'0') as u32 * 10 + (v[5] - b'0') as u32;
    let day: u32 = (v[6] - b'0') as u32 * 10 + (v[7] - b'0') as u32;
    let draw: u32 =
        (v[8] - b'0') as u32 * 100 + (v[9] - b'0') as u32 * 10 + (v[10] - b'0') as u32;
    assert!((1..=12).contains(&month));
    assert!((1..=31).contains(&day));
    assert!((100..=998).contains(&draw));
}
