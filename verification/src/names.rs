//! The byte names the packaging pipeline is built around.

use vstd::prelude::*;

verus! {

/// The `preview` subtree of an input package.  The bytes of `preview`.
pub open spec fn spec_preview_name() -> Seq<u8> {
    seq![112u8, 114u8, 101u8, 118u8, 105u8, 101u8, 119u8]
}

pub fn preview_name() -> (v: Vec<u8>)
    ensures
        v@ == spec_preview_name(),
{
    let mut v: Vec<u8> = Vec::new();
    v.push(112u8);
    v.push(114u8);
    v.push(101u8);
    v.push(118u8);
    v.push(105u8);
    v.push(101u8);
    v.push(119u8);
    proof {
        assert(v@ =~= spec_preview_name());
    }
    v
}

/// The metadata file of an input package.  The bytes of `description.xml`.
pub open spec fn spec_description_name() -> Seq<u8> {
    seq![100u8, 101u8, 115u8, 99u8, 114u8, 105u8, 112u8, 116u8, 105u8, 111u8, 110u8, 46u8, 120u8, 109u8, 108u8]
}

pub fn description_name() -> (v: Vec<u8>)
    ensures
        v@ == spec_description_name(),
{
    let mut v: Vec<u8> = Vec::new();
    v.push(100u8);
    v.push(101u8);
    v.push(115u8);
    v.push(99u8);
    v.push(114u8);
    v.push(105u8);
    v.push(112u8);
    v.push(116u8);
    v.push(105u8);
    v.push(111u8);
    v.push(110u8);
    v.push(46u8);
    v.push(120u8);
    v.push(109u8);
    v.push(108u8);
    proof {
        assert(v@ =~= spec_description_name());
    }
    v
}

/// The manifest the `lockscreen` subtree must hold.  The bytes of `lockscreen/manifest.xml`.
pub open spec fn spec_manifest_name() -> Seq<u8> {
    seq![108u8, 111u8, 99u8, 107u8, 115u8, 99u8, 114u8, 101u8, 101u8, 110u8, 47u8, 109u8, 97u8, 110u8, 105u8, 102u8, 101u8, 115u8, 116u8, 46u8, 120u8, 109u8, 108u8]
}

pub fn manifest_name() -> (v: Vec<u8>)
    ensures
        v@ == spec_manifest_name(),
{
    let mut v: Vec<u8> = Vec::new();
    v.push(108u8);
    v.push(111u8);
    v.push(99u8);
    v.push(107u8);
    v.push(115u8);
    v.push(99u8);
    v.push(114u8);
    v.push(101u8);
    v.push(101u8);
    v.push(110u8);
    v.push(47u8);
    v.push(109u8);
    v.push(97u8);
    v.push(110u8);
    v.push(105u8);
    v.push(102u8);
    v.push(101u8);
    v.push(115u8);
    v.push(116u8);
    v.push(46u8);
    v.push(120u8);
    v.push(109u8);
    v.push(108u8);
    proof {
        assert(v@ =~= spec_manifest_name());
    }
    v
}

/// The `lockscreen` subtree, and the published artifact's name.  The bytes of `lockscreen`.
pub open spec fn spec_lockscreen_name() -> Seq<u8> {
    seq![108u8, 111u8, 99u8, 107u8, 115u8, 99u8, 114u8, 101u8, 101u8, 110u8]
}

pub fn lockscreen_name() -> (v: Vec<u8>)
    ensures
        v@ == spec_lockscreen_name(),
{
    let mut v: Vec<u8> = Vec::new();
    v.push(108u8);
    v.push(111u8);
    v.push(99u8);
    v.push(107u8);
    v.push(115u8);
    v.push(99u8);
    v.push(114u8);
    v.push(101u8);
    v.push(101u8);
    v.push(110u8);
    proof {
        assert(v@ =~= spec_lockscreen_name());
    }
    v
}

/// The intermediate archive of the `lockscreen` subtree.  The bytes of `lockscreen.zip`.
pub open spec fn spec_lockscreen_zip_name() -> Seq<u8> {
    seq![108u8, 111u8, 99u8, 107u8, 115u8, 99u8, 114u8, 101u8, 101u8, 110u8, 46u8, 122u8, 105u8, 112u8]
}

pub fn lockscreen_zip_name() -> (v: Vec<u8>)
    ensures
        v@ == spec_lockscreen_zip_name(),
{
    let mut v: Vec<u8> = Vec::new();
    v.push(108u8);
    v.push(111u8);
    v.push(99u8);
    v.push(107u8);
    v.push(115u8);
    v.push(99u8);
    v.push(114u8);
    v.push(101u8);
    v.push(101u8);
    v.push(110u8);
    v.push(46u8);
    v.push(122u8);
    v.push(105u8);
    v.push(112u8);
    proof {
        assert(v@ =~= spec_lockscreen_zip_name());
    }
    v
}

/// The assembled container before its final repack.  The bytes of `lockscreen.itz`.
pub open spec fn spec_lockscreen_itz_name() -> Seq<u8> {
    seq![108u8, 111u8, 99u8, 107u8, 115u8, 99u8, 114u8, 101u8, 101u8, 110u8, 46u8, 105u8, 116u8, 122u8]
}

pub fn lockscreen_itz_name() -> (v: Vec<u8>)
    ensures
        v@ == spec_lockscreen_itz_name(),
{
    let mut v: Vec<u8> = Vec::new();
    v.push(108u8);
    v.push(111u8);
    v.push(99u8);
    v.push(107u8);
    v.push(115u8);
    v.push(99u8);
    v.push(114u8);
    v.push(101u8);
    v.push(101u8);
    v.push(110u8);
    v.push(46u8);
    v.push(105u8);
    v.push(116u8);
    v.push(122u8);
    proof {
        assert(v@ =~= spec_lockscreen_itz_name());
    }
    v
}

/// Separator between listed names in an error detail.  The bytes of `, `.
pub open spec fn spec_comma_space() -> Seq<u8> {
    seq![44u8, 32u8]
}

pub fn comma_space() -> (v: Vec<u8>)
    ensures
        v@ == spec_comma_space(),
{
    let mut v: Vec<u8> = Vec::new();
    v.push(44u8);
    v.push(32u8);
    proof {
        assert(v@ =~= spec_comma_space());
    }
    v
}

/// The archiver's recurse flag.  The bytes of `-r`.
pub open spec fn spec_dash_r() -> Seq<u8> {
    seq![45u8, 114u8]
}

pub fn dash_r() -> (v: Vec<u8>)
    ensures
        v@ == spec_dash_r(),
{
    let mut v: Vec<u8> = Vec::new();
    v.push(45u8);
    v.push(114u8);
    proof {
        assert(v@ =~= spec_dash_r());
    }
    v
}

/// The archiver's argument naming the working directory itself.  The bytes of `.`.
pub open spec fn spec_dot_arg() -> Seq<u8> {
    seq![46u8]
}

pub fn dot_arg() -> (v: Vec<u8>)
    ensures
        v@ == spec_dot_arg(),
{
    let mut v: Vec<u8> = Vec::new();
    v.push(46u8);
    proof {
        assert(v@ =~= spec_dot_arg());
    }
    v
}

} // verus!
