//! MIG create/destroy command lines for `nvidia-smi` on PCI devices.
//!
//! Janus ids stay record-only. The commands themselves are run by the
//! service, not by this library.
use vstd::prelude::*;

use super::gpu_orch::JanusMigProfile;
use crate::text::{chars_of, contains_str, has_infix, owned, starts_with, str_eq, string_of_range, vec_starts_with_at};
use vstd::string::*;

verus! {

/// NVIDIA MIG GPU-instance profile ids for H100 80GB.
pub open spec fn gi_id(profile: Seq<char>) -> Option<Seq<char>> {
    if profile == "1g.10gb"@ || profile == "1g"@ {
        Some("19"@)
    } else if profile == "2g.20gb"@ || profile == "2g"@ {
        Some("14"@)
    } else if profile == "3g.40gb"@ || profile == "3g"@ {
        Some("9"@)
    } else if profile == "7g.80gb"@ || profile == "7g"@ {
        Some("0"@)
    } else {
        None
    }
}

pub fn profile_gi_id(profile: &str) -> (r: Option<&'static str>)
    ensures
        match gi_id(profile@) {
            Some(g) => r is Some && r->0@ == g,
            None => r is None,
        },
{
    if str_eq(profile, "1g.10gb") || str_eq(profile, "1g") {
        Some("19")
    } else if str_eq(profile, "2g.20gb") || str_eq(profile, "2g") {
        Some("14")
    } else if str_eq(profile, "3g.40gb") || str_eq(profile, "3g") {
        Some("9")
    } else if str_eq(profile, "7g.80gb") || str_eq(profile, "7g") {
        Some("0")
    } else {
        None
    }
}

/// The part of `s` after its last `c` (all of `s` when there is none).
pub open spec fn after_last(s: Seq<char>, c: char) -> Seq<char>
    decreases s.len(),
{
    if s.len() == 0 || s.last() == c {
        Seq::empty()
    } else {
        after_last(s.drop_last(), c).push(s.last())
    }
}

/// Every `.`-separated part of `seg` is non-empty.
pub open spec fn dot_parts_nonempty(seg: Seq<char>) -> bool {
    &&& seg.len() > 0
    &&& seg[0] != '.'
    &&& seg.last() != '.'
    &&& forall|i: int| 0 <= i < seg.len() - 1 ==> !(#[trigger] seg[i] == '.' && seg[i + 1] == '.')
}

/// `0000:01:00.0` or `01:00.0`, and not a Janus id or a MIG slice id.
pub open spec fn is_pci_bdf_spec(bdf: Seq<char>) -> bool {
    &&& !"janus:"@.is_prefix_of(bdf)
    &&& !has_infix(bdf, "--"@)
    &&& bdf.contains(':')
    &&& after_last(bdf, ':').contains('.')
    &&& dot_parts_nonempty(after_last(bdf, ':'))
}

proof fn lemma_after_last(s: Seq<char>, c: char, k: int)
    requires
        0 <= k <= s.len(),
        forall|j: int| k <= j < s.len() ==> s[j] != c,
        k > 0 ==> s[k - 1] == c,
        k == 0 ==> forall|j: int| 0 <= j < s.len() ==> s[j] != c,
    ensures
        after_last(s, c) == s.subrange(k, s.len() as int),
    decreases s.len(),
{
    if s.len() == k {
        assert(s.subrange(k, s.len() as int) =~= Seq::<char>::empty());
    } else {
        lemma_after_last(s.drop_last(), c, k);
        assert(s.subrange(k, s.len() as int) =~= s.drop_last().subrange(k, s.len() - 1).push(
            s.last(),
        ));
    }
}

pub fn is_pci_bdf(bdf: &str) -> (r: bool)
    ensures
        r == is_pci_bdf_spec(bdf@),
{
    if starts_with(bdf, "janus:") || contains_str(bdf, "--") {
        return false;
    }
    let v = chars_of(bdf);
    let n = v.len();
    let mut k: usize = n;
    while k > 0 && v[k - 1] != ':'
        invariant
            n == v@.len(),
            k <= n,
            forall|j: int| k <= j < n ==> v@[j] != ':',
        decreases k,
    {
        k = k - 1;
    }
    proof {
        lemma_after_last(v@, ':', k as int);
    }
    if k == 0 {
        assert(!v@.contains(':'));
        return false;
    }
    assert(v@[k - 1] == ':');
    let ghost seg = v@.subrange(k as int, n as int);
    assert(v@ == bdf@);
    if k == n || v[k] == '.' || v[n - 1] == '.' {
        return false;
    }
    let mut has_dot = false;
    let mut i: usize = k;
    while i < n
        invariant
            n == v@.len(),
            0 < k < n,
            k <= i <= n,
            seg == v@.subrange(k as int, n as int),
            after_last(bdf@, ':') == seg,
            has_dot == exists|j: int| k <= j < i && v@[j] == '.',
            forall|j: int| k <= j < i && j + 1 < n ==> !(#[trigger] v@[j] == '.' && v@[j + 1] == '.'),
        decreases n - i,
    {
        if v[i] == '.' {
            has_dot = true;
            if i + 1 < n && v[i + 1] == '.' {
                assert(seg[i - k] == '.' && seg[(i - k) + 1] == '.');
                assert(!dot_parts_nonempty(seg));
                assert(after_last(bdf@, ':') == seg);
                return false;
            }
        }
        i = i + 1;
    }
    proof {
        if has_dot {
            let j = choose|j: int| k <= j < n && v@[j] == '.';
            assert(seg[j - k] == '.');
        } else {
            assert forall|j: int| 0 <= j < seg.len() implies seg[j] != '.' by {
                assert(seg[j] == v@[j + k]);
            }
        }
        assert forall|j: int| 0 <= j < seg.len() - 1 implies !(#[trigger] seg[j] == '.' && seg[j + 1] == '.') by {
            assert(seg[j] == v@[j + k]);
            assert(seg[j + 1] == v@[j + k + 1]);
        }
    }
    has_dot
}

pub open spec fn argv_views(v: Seq<String>) -> Seq<Seq<char>> {
    v.map_values(|s: String| s@)
}

/// `nvidia-smi mig -i {parent} -cgi {gi} -C`.
pub fn create_argv(parent_bdf: &str, profile: &JanusMigProfile) -> (r: Result<Vec<String>, String>)
    ensures
        gi_id(profile.name@) is Some <==> r is Ok,
        r matches Ok(v) ==> argv_views(v@) == seq!["mig"@, "-i"@, parent_bdf@, "-cgi"@, gi_id(profile.name@)->0, "-C"@],
        r matches Err(e) ==> e@ == "no nvidia-smi GI id for profile '"@ + profile.name@ + "'"@,
{
    let gi = match profile_gi_id(profile.name) {
        Some(g) => g,
        None => {
            let mut msg = "no nvidia-smi GI id for profile '".to_owned();
            msg.append(profile.name);
            msg.append("'");
            return Err(msg);
        },
    };
    let mut v: Vec<String> = Vec::new();
    v.push(owned("mig"));
    v.push(owned("-i"));
    v.push(owned(parent_bdf));
    v.push(owned("-cgi"));
    v.push(owned(gi));
    v.push(owned("-C"));
    assert(argv_views(v@) =~= seq!["mig"@, "-i"@, parent_bdf@, "-cgi"@, gi@, "-C"@]);
    Ok(v)
}

/// `i` is the first position where `p` occurs in `s`.
pub open spec fn first_at(s: Seq<char>, p: Seq<char>, i: int) -> bool {
    &&& 0 <= i && i + p.len() <= s.len()
    &&& s.subrange(i, i + p.len()) == p
    &&& forall|j: int| 0 <= j < i ==> #[trigger] s.subrange(j, j + p.len()) != p
}

/// The part of `s` before the first `p` (all of `s` when there is none).
pub open spec fn before_first(s: Seq<char>, p: Seq<char>) -> Seq<char> {
    if exists|i: int| first_at(s, p, i) {
        s.subrange(0, choose|i: int| first_at(s, p, i))
    } else {
        s
    }
}

/// The parent device of a slice id `{parent}--{profile}--{index}`: the part
/// before the first `--` (the whole id when it has none).
pub fn slice_parent(slice_bdf: &str) -> (r: String)
    ensures
        r@ == before_first(slice_bdf@, "--"@),
{
    let v = chars_of(slice_bdf);
    let sep = chars_of("--");
    proof {
        reveal_strlit("--");
    }
    let n = v.len();
    let mut end = n;
    let mut i: usize = 0;
    let mut found = false;
    while i < n && n - i >= 2 && !found
        invariant
            n == v@.len(),
            sep@ == "--"@,
            sep@.len() == 2,
            !found ==> end == n,
            found ==> first_at(v@, sep@, end as int) && end < n,
            !found ==> forall|j: int| 0 <= j < i ==> #[trigger] v@.subrange(j, j + 2) != sep@,
            i <= n,
        decreases n - i + (if found { 0int } else { 1 }),
    {
        if vec_starts_with_at(&v, &sep, i) {
            found = true;
            end = i;
        } else {
            i = i + 1;
        }
    }
    proof {
        if found {
            let c = choose|j: int| first_at(v@, sep@, j);
            if c < end {
                assert(v@.subrange(c, c + 2) == sep@);
            } else if end < c {
                assert(v@.subrange(end as int, end + 2) == sep@);
            }
        } else {
            assert forall|j: int| !first_at(v@, sep@, j) by {
                if first_at(v@, sep@, j) {
                    assert(v@.subrange(j, j + 2) == sep@);
                }
            }
            assert(v@.subrange(0, n as int) =~= v@);
        }
    }
    string_of_range(&v, 0, end)
}

/// `nvidia-smi mig -i {parent} -dci -dgi`, where the parent is the part of a
/// slice id `{parent}--{profile}--{index}` before the first `--`.
pub fn destroy_argv(slice_bdf: &str) -> (r: Vec<String>)
    ensures
        argv_views(r@) == seq!["mig"@, "-i"@, before_first(slice_bdf@, "--"@), "-dci"@, "-dgi"@],
{
    let parent = slice_parent(slice_bdf);
    let mut r: Vec<String> = Vec::new();
    r.push(owned("mig"));
    r.push(owned("-i"));
    r.push(parent);
    r.push(owned("-dci"));
    r.push(owned("-dgi"));
    assert(argv_views(r@) =~= seq!["mig"@, "-i"@, before_first(slice_bdf@, "--"@), "-dci"@, "-dgi"@]);
    r
}

/// The parent of a slice id is the device it was cut from: for a device id
/// without `--` that does not end in `-`, the slice `{parent}--{profile}--{index}` gives back
/// `parent`, so destroying it addresses that device.
pub proof fn lemma_slice_parent_round_trip(parent: Seq<char>, profile: Seq<char>, index: nat)
    requires
        !has_infix(parent, "--"@),
        parent.len() == 0 || parent.last() != '-',
    ensures
        before_first(parent + "--"@ + profile + "--"@ + crate::text::dec(index), "--"@) == parent,
{
    reveal_strlit("--");
    let s = parent + "--"@ + profile + "--"@ + crate::text::dec(index);
    let p = "--"@;
    let n = parent.len() as int;
    assert(s[n] == '-' && s[n + 1] == '-');
    assert(s.subrange(n, n + 2) =~= p);
    assert forall|j: int| 0 <= j < n implies #[trigger] s.subrange(j, j + p.len()) != p by {
        if s.subrange(j, j + 2) == p {
            if j + 2 <= n {
                assert(parent.subrange(j, j + 2) =~= s.subrange(j, j + 2));
                assert(has_infix(parent, p));
            } else {
                assert(j == n - 1);
                assert(s.subrange(j, j + 2)[0] == s[j]);
                assert(s[j] == parent[j]);
            }
        }
    }
    assert(first_at(s, p, n));
    let c = choose|i: int| first_at(s, p, i);
    if c < n {
        assert(s.subrange(c, c + 2) == p);
    } else if n < c {
        assert(s.subrange(n, n + 2) == p);
    }
    assert(s.subrange(0, n) =~= parent);
}

/// The error of a failed `nvidia-smi mig` run, from its trimmed stderr and
/// stdout.
pub fn mig_failure_message(stderr: &str, stdout: &str) -> (r: String)
    ensures
        r@ == crate::text::trim(
            "nvidia-smi mig failed: "@ + crate::text::trim(stderr@) + " "@ + crate::text::trim(stdout@),
        ),
{
    let mut m = crate::text::owned("nvidia-smi mig failed: ");
    m.append(crate::text::trim_str(stderr));
    m.append(" ");
    m.append(crate::text::trim_str(stdout));
    crate::text::trim_string(m.as_str())
}

/// A setting that switches a driver path on: `1`, `true`, `TRUE` or `yes`.
pub open spec fn switched_on(setting: Option<Seq<char>>) -> bool {
    match setting {
        Some(v) => v == "1"@ || v == "true"@ || v == "TRUE"@ || v == "yes"@,
        None => false,
    }
}

fn switched_on_exec(setting: Option<&str>) -> (r: bool)
    ensures
        r == switched_on(
            match setting {
                Some(v) => Some(v@),
                None => None,
            },
        ),
{
    match setting {
        Some(v) => str_eq(v, "1") || str_eq(v, "true") || str_eq(v, "TRUE") || str_eq(v, "yes"),
        None => false,
    }
}

/// Whether driver-level MIG changes on real PCI devices are enabled, from
/// the `FLUXVM_AI_PCI_MIG` setting.
pub fn pci_mig_enabled(setting: Option<&str>) -> (r: bool)
    ensures
        r == switched_on(
            match setting {
                Some(v) => Some(v@),
                None => None,
            },
        ),
{
    switched_on_exec(setting)
}

/// Whether MIG changes are only recorded, the driver left alone, from the
/// `FLUXVM_AI_PCI_MIG_RECORD_ONLY` setting.
pub fn record_only(setting: Option<&str>) -> (r: bool)
    ensures
        r == switched_on(
            match setting {
                Some(v) => Some(v@),
                None => None,
            },
        ),
{
    switched_on_exec(setting)
}

/// Destroying a slice addresses the device it was cut from: for a device
/// id without `--` that does not end in `-`, the command `destroy_argv`
/// gives for `slice_bdf(parent, profile, index)` (whose text is
/// `{parent}--{profile}--{index}`) is `mig -i {parent} -dci -dgi`.
pub proof fn lemma_destroy_argv_of_slice(parent: Seq<char>, profile: Seq<char>, index: nat)
    requires
        !has_infix(parent, "--"@),
        parent.len() == 0 || parent.last() != '-',
    ensures
        seq![
            "mig"@,
            "-i"@,
            before_first(parent + "--"@ + profile + "--"@ + crate::text::dec(index), "--"@),
            "-dci"@,
            "-dgi"@,
        ] == seq!["mig"@, "-i"@, parent, "-dci"@, "-dgi"@],
{
    lemma_slice_parent_round_trip(parent, profile, index);
}

} // verus!
