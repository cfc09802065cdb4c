//! Output file names derived from the input, and escaping of a path for use
//! inside a media-filter argument.

use vstd::prelude::*;
use crate::text::{chars_of, push_char};

verus! {

/// What `std::path::Path::parent` gives for the path `p`.
pub uninterp spec fn parent_of(p: Seq<char>) -> Option<Seq<char>>;

/// What `std::path::Path::file_stem` gives for the path `p`.
pub uninterp spec fn stem_of(p: Seq<char>) -> Option<Seq<char>>;

/// What `std::path::Path::join` gives for `name` under `dir`.
pub uninterp spec fn joined(dir: Seq<char>, name: Seq<char>) -> Seq<char>;

/// Relies on `Path::parent`: the path without its last component.
#[verifier::external_body]
fn path_parent(p: &str) -> (r: Option<String>)
    ensures
        r.deep_view() == parent_of(p@),
{
    std::path::Path::new(p).parent().map(|d| d.to_string_lossy().into_owned())
}

/// Relies on `Path::file_stem`: the last component without its extension.
#[verifier::external_body]
fn path_stem(p: &str) -> (r: Option<String>)
    ensures
        r.deep_view() == stem_of(p@),
{
    std::path::Path::new(p).file_stem().map(|s| s.to_string_lossy().into_owned())
}

/// Relies on `Path::join`: `name` placed under `dir`.
#[verifier::external_body]
fn path_join(dir: &str, name: &str) -> (r: String)
    ensures
        r@ == joined(dir@, name@),
{
    std::path::Path::new(dir).join(name).to_string_lossy().into_owned()
}

/// The directory to use for a parent as `Path::parent` gave it: the current
/// directory where there was none.
pub open spec fn dir_or_current(parent: Option<Seq<char>>) -> Seq<char> {
    match parent {
        Some(d) => d,
        None => "."@,
    }
}

/// The file name to use for a stem as `Path::file_stem` gave it, with
/// `suffix` appended: `output` stands in where there was none.
pub open spec fn name_with_suffix(stem: Option<Seq<char>>, suffix: Seq<char>) -> Seq<char> {
    match stem {
        Some(b) => b + suffix,
        None => "output"@ + suffix,
    }
}

/// The file beside `input` named after its stem with `suffix` appended.
pub open spec fn sibling_path(input: Seq<char>, suffix: Seq<char>) -> Seq<char> {
    joined(dir_or_current(parent_of(input)), name_with_suffix(stem_of(input), suffix))
}

/// Directory and file name of a sibling file, from the parent and stem of
/// a path.
pub fn sibling_parts(parent: Option<String>, stem: Option<String>, suffix: &str) -> (r: (
    String,
    String,
))
    ensures
        r.0@ == dir_or_current(parent.deep_view()),
        r.1@ == name_with_suffix(stem.deep_view(), suffix@),
{
    let dir = match parent {
        Some(d) => d,
        None => String::from_str("."),
    };
    let base = match stem {
        Some(b) => b,
        None => String::from_str("output"),
    };
    (dir, base.concat(suffix))
}

fn sibling_with_suffix(input: &str, suffix: &str) -> (r: String)
    ensures
        r@ == sibling_path(input@, suffix@),
{
    let (dir, name) = sibling_parts(path_parent(input), path_stem(input), suffix);
    path_join(dir.as_str(), name.as_str())
}

/// Default subtitle file: beside the input, named `<stem>.zh-TW.srt`.
pub fn default_srt_path(input: &str) -> (r: String)
    ensures
        r@ == sibling_path(input@, ".zh-TW.srt"@),
{
    sibling_with_suffix(input, ".zh-TW.srt")
}

/// Default output video: beside the input, named `<stem>.zh.mp4`.
pub fn default_output_video_path(input: &str) -> (r: String)
    ensures
        r@ == sibling_path(input@, ".zh.mp4"@),
{
    sibling_with_suffix(input, ".zh.mp4")
}

/// How one character of a path is written inside a filter argument: `\`,
/// `:` and `=` get a backslash in front.
pub open spec fn escape_char(c: char) -> Seq<char> {
    if c == '\\' || c == ':' || c == '=' {
        seq!['\\', c]
    } else {
        seq![c]
    }
}

/// `s` with each character escaped.
pub open spec fn escaped(s: Seq<char>) -> Seq<char>
    decreases s.len(),
{
    if s.len() == 0 {
        Seq::empty()
    } else {
        escaped(s.drop_last()) + escape_char(s.last())
    }
}

/// `path` as it can stand in a filter argument.
pub fn escape_for_ffmpeg(path: &str) -> (r: String)
    ensures
        r@ == escaped(path@),
{
    let v = chars_of(path);
    let mut out = String::new();
    let mut i: usize = 0;
    while i < v.len()
        invariant
            i <= v@.len(),
            v@ == path@,
            out@ == escaped(v@.take(i as int)),
        decreases v@.len() - i,
    {
        let c = v[i];
        assert(v@.take(i + 1).drop_last() =~= v@.take(i as int));
        if c == '\\' || c == ':' || c == '=' {
            push_char(&mut out, '\\');
        }
        push_char(&mut out, c);
        assert(out@ =~= escaped(v@.take(i + 1)));
        i = i + 1;
    }
    assert(v@.take(i as int) =~= v@);
    out
}

} // verus!
