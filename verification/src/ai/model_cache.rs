//! Host-side model materialization decisions: where a source comes from,
//! whether a path stays inside an allowed model root, and checksum checks.
use vstd::prelude::*;

use crate::crypto::{sha256_hex, sha256_spec};
use crate::text::{
    chars_of, dec, hex_seq, is_ascii_alnum, is_ascii_alnum_exec, lower_seq, owned, push_char,
    push_dec, split_char, split_range, starts_with, str_eq, to_lower, trim, trim_str,
};
use vstd::string::*;

verus! {

/// A name made safe as one path component: ASCII letters, digits, `-` and
/// `_` stay, anything else becomes `_`.
pub open spec fn sanitized(name: Seq<char>) -> Seq<char> {
    name.map_values(|c: char| if is_ascii_alnum(c) || c == '-' || c == '_' { c } else { '_' })
}

pub fn sanitize_name(name: &str) -> (r: String)
    ensures
        r@ == sanitized(name@),
{
    let v = chars_of(name);
    let mut out = String::new();
    let mut i: usize = 0;
    while i < v.len()
        invariant
            i <= v@.len(),
            v@ == name@,
            out@ == sanitized(v@.subrange(0, i as int)),
        decreases v.len() - i,
    {
        let c = v[i];
        let d = if is_ascii_alnum_exec(c) || c == '-' || c == '_' {
            c
        } else {
            '_'
        };
        push_char(&mut out, d);
        proof {
            assert(sanitized(v@.subrange(0, i + 1)) =~= sanitized(v@.subrange(0, i as int)).push(d));
        }
        i = i + 1;
    }
    proof {
        assert(v@.subrange(0, v@.len() as int) =~= v@);
    }
    out
}

/// Where a model source is fetched from.
#[derive(Debug, Clone)]
pub enum ModelSource {
    /// The configured local model directory stands in for every source.
    ModelDir,
    /// A local path (`file://` stripped, or an absolute path).
    Local(String),
    /// A Hugging Face repository.
    HuggingFace(String),
    /// Anything else, refused with this message.
    Unsupported(String),
}

/// The kind of source, in the order materialization tries them.
pub fn model_source(model_dir_set: bool, source: &str) -> (r: ModelSource)
    ensures
        model_dir_set ==> r is ModelDir,
        !model_dir_set && "file://"@.is_prefix_of(source@) ==> (r matches ModelSource::Local(p) && p@
            == source@.subrange(7, source@.len() as int)),
        !model_dir_set && !"file://"@.is_prefix_of(source@) && "/"@.is_prefix_of(source@) ==> (r matches ModelSource::Local(
            p,
        ) && p@ == source@),
        !model_dir_set && !"file://"@.is_prefix_of(source@) && !"/"@.is_prefix_of(source@)
            && "hf://"@.is_prefix_of(source@) ==> (r matches ModelSource::HuggingFace(p) && p@
            == source@.subrange(5, source@.len() as int)),
        !model_dir_set && !"file://"@.is_prefix_of(source@) && !"/"@.is_prefix_of(source@)
            && !"hf://"@.is_prefix_of(source@) ==> (r matches ModelSource::Unsupported(m) && m@
            == "unsupported model source '"@ + source@
            + "' (use hf://, file://, absolute path, or FLUXVM_AI_MODEL_DIR)"@),
{
    if model_dir_set {
        return ModelSource::ModelDir;
    }
    proof {
        reveal_strlit("file://");
        reveal_strlit("hf://");
    }
    if starts_with(source, "file://") {
        return ModelSource::Local(owned(source.substring_char(7, source.unicode_len())));
    }
    if starts_with(source, "/") {
        return ModelSource::Local(owned(source));
    }
    if starts_with(source, "hf://") {
        return ModelSource::HuggingFace(owned(source.substring_char(5, source.unicode_len())));
    }
    let mut m = owned("unsupported model source '");
    m.append(source);
    m.append("' (use hf://, file://, absolute path, or FLUXVM_AI_MODEL_DIR)");
    ModelSource::Unsupported(m)
}

/// The non-empty pieces, in order.
pub open spec fn nonempty(pieces: Seq<Seq<char>>) -> Seq<Seq<char>>
    decreases pieces.len(),
{
    if pieces.len() == 0 {
        Seq::empty()
    } else {
        nonempty(pieces.drop_last()) + if pieces.last().len() > 0 {
            seq![pieces.last()]
        } else {
            Seq::empty()
        }
    }
}

/// The non-empty `/`-separated components of a path.
pub open spec fn components(p: Seq<char>) -> Seq<Seq<char>> {
    nonempty(split_char(p, '/'))
}

fn components_of(p: &str) -> (r: Vec<Vec<char>>)
    ensures
        r@.map_values(|c: Vec<char>| c@) == components(p@),
{
    let v = chars_of(p);
    proof {
        assert(v@.subrange(0, v@.len() as int) =~= v@);
    }
    let pieces = split_range(&v, 0, v.len(), '/');
    let ghost pv = pieces@.map_values(|c: Vec<char>| c@);
    let mut out: Vec<Vec<char>> = Vec::new();
    let mut i: usize = 0;
    let total = pieces.len();
    let mut rest = pieces;
    let ghost src = rest@;
    while rest.len() > 0
        invariant
            i + rest@.len() == src.len(),
            total == src.len(),
            rest@ == src.subrange(i as int, src.len() as int),
            pv == src.map_values(|c: Vec<char>| c@),
            out@.map_values(|c: Vec<char>| c@) == nonempty(pv.subrange(0, i as int)),
        decreases rest.len(),
    {
        let piece = rest.remove(0);
        proof {
            let t = pv.subrange(0, i + 1);
            assert(t.drop_last() =~= pv.subrange(0, i as int));
            assert(t.last() == piece@);
        }
        if piece.len() > 0 {
            out.push(piece);
        }
        proof {
            assert(out@.map_values(|c: Vec<char>| c@) =~= nonempty(pv.subrange(0, i + 1)));
            assert(rest@ =~= src.subrange(i + 1, src.len() as int));
        }
        i = i + 1;
    }
    proof {
        assert(pv.subrange(0, pv.len() as int) =~= pv);
    }
    out
}

fn vec_eq(a: &Vec<char>, b: &Vec<char>) -> (r: bool)
    ensures
        r == (a@ == b@),
{
    crate::text::seq_eq(a, b)
}

/// Whether canonical `path` is `root` or lies under it.
pub fn path_within(path: &str, root: &str) -> (r: bool)
    ensures
        r == within(path@, root@),
{
    let pc = components_of(path);
    let rc = components_of(root);
    let ghost pv = pc@.map_values(|c: Vec<char>| c@);
    let ghost rv = rc@.map_values(|c: Vec<char>| c@);
    if rc.len() > pc.len() {
        return false;
    }
    let mut i: usize = 0;
    while i < rc.len()
        invariant
            i <= rc@.len() <= pc@.len(),
            pv == pc@.map_values(|c: Vec<char>| c@),
            rv == rc@.map_values(|c: Vec<char>| c@),
            pv == components(path@),
            rv == components(root@),
            forall|j: int| 0 <= j < i ==> rv[j] == pv[j],
        decreases rc.len() - i,
    {
        if !vec_eq(&rc[i], &pc[i]) {
            assert(rv[i as int] != pv[i as int]);
            assert(pv.subrange(0, rv.len() as int)[i as int] == pv[i as int]);
            return false;
        }
        i = i + 1;
    }
    assert(pv.subrange(0, rv.len() as int) =~= rv);
    true
}

/// Keeps a canonical model path that stays inside one of the canonical
/// allowed roots.
pub fn confine(canon: &str, roots: &[String]) -> (r: Result<String, String>)
    ensures
        (exists|k: int| 0 <= k < roots@.len() && within(canon@, (#[trigger] roots@[k])@)) ==> (r matches Ok(
            p,
        ) && p@ == canon@),
        !(exists|k: int| 0 <= k < roots@.len() && within(canon@, (#[trigger] roots@[k])@)) ==> (r matches Err(
            m,
        ) && m@ == "model path "@ + canon@ + " is outside FLUXVM_AI_MODEL_DIR and {state}/ai-models"@),
{
    let mut k: usize = 0;
    while k < roots.len()
        invariant
            k <= roots@.len(),
            forall|j: int| 0 <= j < k ==> !within(canon@, (#[trigger] roots@[j])@),
        decreases roots.len() - k,
    {
        if path_within(canon, roots[k].as_str()) {
            return Ok(owned(canon));
        }
        k = k + 1;
    }
    let mut m = owned("model path ");
    m.append(canon);
    m.append(" is outside FLUXVM_AI_MODEL_DIR and {state}/ai-models");
    Err(m)
}

/// `Path::starts_with` on canonical paths: the root's components lead the path's.
pub open spec fn within(path: Seq<char>, root: Seq<char>) -> bool {
    components(root).is_prefix_of(components(path))
}

/// A checksum request: trimmed, without a `sha256:` prefix, lower-cased;
/// none when absent or blank.
pub open spec fn requested(expected: Option<Seq<char>>) -> Option<Seq<char>> {
    match expected {
        None => None,
        Some(e) => {
            let t = trim(e);
            if t.len() == 0 {
                None
            } else {
                let bare = if "sha256:"@.is_prefix_of(t) {
                    t.subrange(7, t.len() as int)
                } else {
                    t
                };
                Some(lower_seq(bare))
            }
        },
    }
}

/// The checksum to verify, if one was asked for.
pub fn requested_checksum(expected: Option<&str>) -> (r: Option<String>)
    ensures
        match requested(
            match expected {
                Some(e) => Some(e@),
                None => None::<Seq<char>>,
            },
        ) {
            None => r is None,
            Some(x) => r matches Some(s) && s@ == x,
        },
{
    let e = match expected {
        None => {
            return None;
        },
        Some(e) => e,
    };
    let t = trim_str(e);
    if t.unicode_len() == 0 {
        return None;
    }
    proof {
        reveal_strlit("sha256:");
    }
    let bare = if starts_with(t, "sha256:") {
        t.substring_char(7, t.unicode_len())
    } else {
        t
    };
    Some(to_lower(bare))
}

/// Compares a computed digest with the requested one.
pub fn checksum_verdict(path_display: &str, expected: &str, actual: &str) -> (r: Result<String, String>)
    ensures
        actual@ == expected@ ==> (r matches Ok(h) && h@ == actual@),
        actual@ != expected@ ==> (r matches Err(m) && m@ == "checksum mismatch for "@ + path_display@
            + ": expected "@ + expected@ + ", got "@ + actual@),
{
    if str_eq(actual, expected) {
        return Ok(owned(actual));
    }
    let mut m = owned("checksum mismatch for ");
    m.append(path_display);
    m.append(": expected ");
    m.append(expected);
    m.append(", got ");
    m.append(actual);
    Err(m)
}

/// One line of a directory manifest: `relative-path size sha256`.
pub fn manifest_line(rel: &str, size: u64, hex: &str) -> (r: String)
    ensures
        r@ == rel@ + " "@ + dec(size as nat) + " "@ + hex@ + "\n"@,
{
    let mut r = owned(rel);
    r.append(" ");
    push_dec(&mut r, size);
    r.append(" ");
    r.append(hex);
    r.append("\n");
    r
}

/// The digest of a manifest: lower-case hex SHA-256 of its text.
pub fn manifest_digest(lines: &str) -> (r: String)
    ensures
        r@ == hex_seq(sha256_spec(lines.spec_bytes())),
{
    sha256_hex(lines.as_bytes())
}

/// The manifest of a directory's files, in the order given: one
/// `relative-path size sha256` line each.
pub open spec fn manifest_text(entries: Seq<(String, u64, String)>) -> Seq<char>
    decreases entries.len(),
{
    if entries.len() == 0 {
        Seq::empty()
    } else {
        let e = entries.last();
        manifest_text(entries.drop_last()) + e.0@ + " "@ + dec(e.1 as nat) + " "@ + e.2@ + "\n"@
    }
}

/// The checksum of a directory from its files (sorted, with their relative
/// paths, sizes and digests): the SHA-256 of their manifest; a directory
/// with no file is refused.
pub fn directory_manifest(dir: &str, entries: &[(String, u64, String)]) -> (r: Result<String, String>)
    ensures
        entries@.len() == 0 ==> (r matches Err(m) && m@ == "no regular file under "@ + dir@
            + " to verify checksum against"@),
        entries@.len() > 0 ==> (r matches Ok(d) && d@ == hex_seq(sha256_spec(vstd::utf8::encode_utf8(manifest_text(entries@))))),
{
    if entries.len() == 0 {
        let mut m = owned("no regular file under ");
        m.append(dir);
        m.append(" to verify checksum against");
        return Err(m);
    }
    let mut lines = String::new();
    let mut i: usize = 0;
    assert(entries@.subrange(0, 0).len() == 0);
    while i < entries.len()
        invariant
            i <= entries@.len(),
            lines@ == manifest_text(entries@.subrange(0, i as int)),
        decreases entries.len() - i,
    {
        let line = manifest_line(entries[i].0.as_str(), entries[i].1, entries[i].2.as_str());
        lines.append(line.as_str());
        proof {
            let s = entries@.subrange(0, i + 1);
            assert(s.drop_last() =~= entries@.subrange(0, i as int));
            assert(s.last() == entries@[i as int]);
        }
        i = i + 1;
    }
    proof {
        assert(entries@.subrange(0, entries@.len() as int) =~= entries@);
    }
    Ok(manifest_digest(lines.as_str()))
}

} // verus!
