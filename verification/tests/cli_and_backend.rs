use vlp::archivefiles::ArchiveError;
use vlp::cli::Args;
use vlp::zip_command::{sibling_zip_candidate, ZipCommand};

fn args_with_input(input: Option<&[u8]>, output: Option<&[u8]>) -> Args {
    Args {
        input_path: input.map(|p| p.to_vec()),
        register: false,
        unregister: false,
        zip_path: None,
        output: output.map(|p| p.to_vec()),
    }
}

#[test]
fn input_path_is_demanded() {
    let args = args_with_input(None, None);
    assert!(matches!(args.get_input_path(), Err(ArchiveError::InvalidPath(_))));
    let args = args_with_input(Some(b"/pkg"), None);
    assert_eq!(args.get_input_path().unwrap(), &b"/pkg".to_vec());
}

#[test]
fn required_entry_paths_sit_under_the_input() {
    let input = b"/pkg".to_vec();
    let (p, d, m) = Args::required_entry_paths(&input);
    assert_eq!(p, b"/pkg/preview".to_vec());
    assert_eq!(d, b"/pkg/description.xml".to_vec());
    assert_eq!(m, b"/pkg/lockscreen/manifest.xml".to_vec());
}

#[test]
fn validation_passes_when_everything_exists() {
    let args = args_with_input(Some(b"/pkg"), None);
    assert!(args.validate_input(true, true, true).is_ok());
}

#[test]
fn validation_lists_exactly_the_missing_entries() {
    let args = args_with_input(Some(b"/pkg"), None);
    match args.validate_input(false, true, false) {
        Err(ArchiveError::InvalidPath(d)) => {
            assert_eq!(d, b"preview, lockscreen/manifest.xml".to_vec());
        },
        _ => panic!("missing entries must fail validation"),
    }
    match args.validate_input(true, false, true) {
        Err(ArchiveError::InvalidPath(d)) => assert_eq!(d, b"description.xml".to_vec()),
        _ => panic!("missing entries must fail validation"),
    }
}

#[test]
fn output_dir_prefers_the_explicit_choice() {
    let args = args_with_input(Some(b"/pkgs/theme"), Some(b"/out"));
    assert_eq!(args.resolved_output_dir().unwrap(), b"/out".to_vec());
}

#[test]
fn output_dir_falls_back_to_the_input_parent() {
    let args = args_with_input(Some(b"/pkgs/theme"), None);
    assert_eq!(args.resolved_output_dir().unwrap(), b"/pkgs".to_vec());
}

#[test]
fn output_dir_fails_without_a_parent() {
    let args = args_with_input(Some(b"theme"), None);
    assert!(matches!(args.resolved_output_dir(), Err(ArchiveError::InvalidPath(_))));
}

#[test]
fn sibling_candidate_sits_beside_the_program() {
    let exe = b"/opt/vlp/vlp".to_vec();
    assert_eq!(sibling_zip_candidate(&exe), Some(b"/opt/vlp/zip".to_vec()));
    let bare = b"vlp".to_vec();
    assert_eq!(sibling_zip_candidate(&bare), None);
}

#[test]
fn resolve_prefers_the_explicit_path_when_it_exists() {
    let z = ZipCommand::resolve(
        Some(b"/my/zip".to_vec()),
        true,
        Some(b"/opt/vlp/zip".to_vec()),
        true,
        Some(b"/usr/bin/zip".to_vec()),
    )
    .unwrap();
    assert_eq!(z.path, b"/my/zip".to_vec());
}

#[test]
fn resolve_falls_back_to_the_sibling_then_the_search_path() {
    let z = ZipCommand::resolve(
        Some(b"/my/zip".to_vec()),
        false,
        Some(b"/opt/vlp/zip".to_vec()),
        true,
        Some(b"/usr/bin/zip".to_vec()),
    )
    .unwrap();
    assert_eq!(z.path, b"/opt/vlp/zip".to_vec());
    let z = ZipCommand::resolve(None, false, Some(b"/opt/vlp/zip".to_vec()), false, Some(b"/usr/bin/zip".to_vec()))
        .unwrap();
    assert_eq!(z.path, b"/usr/bin/zip".to_vec());
}

#[test]
fn resolve_fails_when_every_probe_misses() {
    assert!(matches!(
        ZipCommand::resolve(None, false, None, false, None),
        Err(ArchiveError::Io(_))
    ));
}

#[test]
fn zip_dir_runs_inside_the_source_root() {
    // the tool sees only `.` from inside the root, so recorded names never
    // carry the root's absolute path
    let z = ZipCommand { path: b"/usr/bin/zip".to_vec() };
    let to = b"/dist/lockscreen.itz".to_vec();
    let from = b"/tmp/assemble".to_vec();
    let inv = z.zip_dir(&to, &from);
    assert_eq!(inv.program, b"/usr/bin/zip".to_vec());
    assert_eq!(inv.cwd, b"/tmp/assemble".to_vec());
    assert_eq!(inv.args, vec![b"-r".to_vec(), b"/dist/lockscreen.itz".to_vec(), b".".to_vec()]);
    assert!(inv.args.iter().all(|a| a != &from));
}

#[test]
fn zip_file_runs_inside_the_parent_with_the_bare_name() {
    let z = ZipCommand { path: b"/usr/bin/zip".to_vec() };
    let to = b"/out/lockscreen.zip".to_vec();
    let from = b"/dist/lockscreen.itz".to_vec();
    let inv = z.zip_file(&to, &from).unwrap();
    assert_eq!(inv.cwd, b"/dist".to_vec());
    assert_eq!(inv.args, vec![b"/out/lockscreen.zip".to_vec(), b"lockscreen.itz".to_vec()]);
}

#[test]
fn zip_file_rejects_a_bare_source_name() {
    let z = ZipCommand { path: b"/usr/bin/zip".to_vec() };
    let to = b"/out/a.zip".to_vec();
    let from = b"lockscreen.itz".to_vec();
    assert!(matches!(z.zip_file(&to, &from), Err(ArchiveError::InvalidPath(_))));
}

#[test]
fn report_error_carries_the_tool_output() {
    let z = ZipCommand { path: b"/usr/bin/zip".to_vec() };
    let stdout = b"zip warning: nothing to do".to_vec();
    assert!(z.report_error(true, &stdout).is_ok());
    match z.report_error(false, &stdout) {
        Err(ArchiveError::Io(d)) => assert_eq!(d, stdout),
        _ => panic!("a nonzero exit must be reported"),
    }
}
