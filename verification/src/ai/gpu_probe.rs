//! Live GPU readings from `nvidia-smi` CSV output.
//!
//! A missing value does not invent a temperature, a power draw, or an ECC
//! count: it reads as 0. Janus ids are never updated from a reading.
use vstd::prelude::*;

use super::types::NodeGpu;
use crate::text::{
    chars_of, first_index, lemma_first_index, lower_seq, parse_u64_range, parse_u64_spec,
    split_char, split_range, starts_with, string_of_range, to_lower, trim, trim_bounds,
    lemma_first_index_is, seq_eq,
};
use vstd::string::*;

verus! {

#[derive(Debug, Clone, PartialEq, Eq)]
pub struct GpuSample {
    pub bdf: String,
    pub temperature_c: u32,
    pub power_watts: u32,
    pub ecc_errors: u64,
}

/// The content of a reading.
pub struct SampleView {
    pub bdf: Seq<char>,
    pub temperature_c: u32,
    pub power_watts: u32,
    pub ecc_errors: u64,
}

pub open spec fn sample_view(s: GpuSample) -> SampleView {
    SampleView {
        bdf: s.bdf@,
        temperature_c: s.temperature_c,
        power_watts: s.power_watts,
        ecc_errors: s.ecc_errors,
    }
}

pub open spec fn strip_cr(l: Seq<char>) -> Seq<char> {
    if l.len() > 0 && l.last() == '\r' {
        l.drop_last()
    } else {
        l
    }
}

/// `str::lines`: split at `\n`, drop a `\r` before it, no final empty line.
pub open spec fn lines_spec(t: Seq<char>) -> Seq<Seq<char>>
    decreases t.len(),
{
    if t.len() == 0 {
        Seq::empty()
    } else {
        match first_index(t, '\n') {
            None => seq![t],
            Some(i) => if 0 <= i < t.len() {
                seq![strip_cr(t.subrange(0, i))] + lines_spec(t.subrange(i + 1, t.len() as int))
            } else {
                seq![t]
            },
        }
    }
}

/// The number at the start of a field: the part before the first `.`,
/// trimmed and parsed as `u64`; anything unparsable reads as 0.
pub open spec fn number_spec(field: Seq<char>) -> u64 {
    match parse_u64_spec(trim(split_char(field, '.')[0])) {
        Some(x) => x,
        None => 0,
    }
}

/// Field `i`, trimmed, or empty when the line has fewer fields.
pub open spec fn field_at(fields: Seq<Seq<char>>, i: int) -> Seq<char> {
    if i < fields.len() {
        trim(fields[i])
    } else {
        Seq::empty()
    }
}

/// A reading from one CSV line `bus_id, temperature, power, ecc`.
pub open spec fn parse_line_spec(line: Seq<char>) -> Option<SampleView> {
    let fields = split_char(line, ',');
    let bdf = trim(fields[0]);
    if bdf.len() == 0 {
        None
    } else {
        Some(
            SampleView {
                bdf,
                temperature_c: number_spec(field_at(fields, 1)) as u32,
                power_watts: number_spec(field_at(fields, 2)) as u32,
                ecc_errors: number_spec(field_at(fields, 3)),
            },
        )
    }
}

/// Readings from every line that names a device.
pub open spec fn samples_spec(lines: Seq<Seq<char>>) -> Seq<SampleView>
    decreases lines.len(),
{
    if lines.len() == 0 {
        Seq::empty()
    } else {
        let prev = samples_spec(lines.drop_last());
        match parse_line_spec(lines.last()) {
            Some(s) => prev.push(s),
            None => prev,
        }
    }
}

/// `number_spec` of `piece`.
fn field_number(piece: &Vec<char>) -> (r: u64)
    ensures
        r == number_spec(trim(piece@)),
{
    let (a, b) = trim_bounds(piece);
    let ghost ft = piece@.subrange(a as int, b as int);
    let mut k = a;
    while k < b && piece[k] != '.'
        invariant
            a <= k <= b,
            b <= piece@.len(),
            forall|j: int| a <= j < k ==> piece@[j] != '.',
        decreases b - k,
    {
        k = k + 1;
    }
    proof {
        assert forall|j: int| 0 <= j < k - a implies ft[j] != '.' by {
            assert(ft[j] == piece@[j + a]);
        }
        if k < b {
            assert(ft[k - a] == piece@[k as int]);
        }
        lemma_first_index_is(ft, '.', k - a);
        assert(split_char(ft, '.')[0] =~= piece@.subrange(a as int, k as int));
    }
    let mut head: Vec<char> = Vec::new();
    let mut i = a;
    while i < k
        invariant
            a <= i <= k,
            k <= piece@.len(),
            head@ == piece@.subrange(a as int, i as int),
        decreases k - i,
    {
        head.push(piece[i]);
        i = i + 1;
        assert(head@ =~= piece@.subrange(a as int, i as int));
    }
    let (c, d) = trim_bounds(&head);
    match parse_u64_range(&head, c, d) {
        Some(x) => x,
        None => 0,
    }
}

/// The reading in `v[from..to]`, if it names a device.
fn parse_line(v: &Vec<char>, from: usize, to: usize) -> (r: Option<GpuSample>)
    requires
        from <= to <= v@.len(),
    ensures
        match r {
            Some(s) => parse_line_spec(v@.subrange(from as int, to as int)) == Some(sample_view(s)),
            None => parse_line_spec(v@.subrange(from as int, to as int)) is None,
        },
{
    let fields = split_range(v, from, to, ',');
    let ghost fv = fields@.map_values(|p: Vec<char>| p@);
    let (a, b) = trim_bounds(&fields[0]);
    assert(fv[0] == fields@[0]@);
    if a == b {
        return None;
    }
    let bdf = string_of_range(&fields[0], a, b);
    let temperature = if fields.len() > 1 {
        field_number(&fields[1])
    } else {
        0
    };
    let power = if fields.len() > 2 {
        field_number(&fields[2])
    } else {
        0
    };
    let ecc = if fields.len() > 3 {
        field_number(&fields[3])
    } else {
        0
    };
    proof {
        if fields@.len() > 1 {
            assert(fv[1] == fields@[1]@);
        } else {
            assert(parse_u64_spec(trim(split_char(Seq::<char>::empty(), '.')[0])) is None) by {
                let e = Seq::<char>::empty();
                lemma_first_index(e, '.');
                assert(split_char(e, '.')[0] == e);
                assert(trim(e) =~= e);
            }
        }
        if fields@.len() > 2 {
            assert(fv[2] == fields@[2]@);
        }
        if fields@.len() > 3 {
            assert(fv[3] == fields@[3]@);
        }
    }
    Some(
        GpuSample {
            bdf,
            temperature_c: temperature as u32,
            power_watts: power as u32,
            ecc_errors: ecc,
        },
    )
}

pub open spec fn sample_views(v: Seq<GpuSample>) -> Seq<SampleView> {
    v.map_values(|s: GpuSample| sample_view(s))
}

/// Readings from `nvidia-smi --format=csv,noheader,nounits` output.
pub fn parse_nvidia_smi(text: &str) -> (r: Vec<GpuSample>)
    ensures
        sample_views(r@) == samples_spec(lines_spec(text@)),
{
    let v = chars_of(text);
    let n = v.len();
    let mut out: Vec<GpuSample> = Vec::new();
    let mut start: usize = 0;
    proof {
        assert(v@.subrange(0, n as int) =~= v@);
        assert(sample_views(out@) =~= Seq::<SampleView>::empty());
        assert(Seq::<SampleView>::empty() + samples_spec(lines_spec(text@)) =~= samples_spec(
            lines_spec(text@),
        ));
    }
    while start < n
        invariant
            n == v@.len(),
            v@ == text@,
            start <= n,
            samples_spec(lines_spec(text@)) == sample_views(out@) + samples_spec(
                lines_spec(v@.subrange(start as int, n as int)),
            ),
        decreases n - start,
    {
        let nl = crate::text::find_char_from(&v, '\n', start);
        let mut end = nl;
        if end > start && nl < n && v[end - 1] == '\r' {
            end = end - 1;
        }
        proof {
            lemma_lines_step(v@, start as int, nl as int, end as int);
        }
        let ghost before = sample_views(out@);
        let ghost line = v@.subrange(start as int, end as int);
        let ghost next = if nl < n {
            v@.subrange(nl + 1, n as int)
        } else {
            v@.subrange(n as int, n as int)
        };
        match parse_line(&v, start, end) {
            Some(s) => {
                out.push(s);
                proof {
                    assert(sample_views(out@) =~= before.push(sample_view(s)));
                    assert(before.push(sample_view(s)) + samples_spec(lines_spec(next)) =~= before
                        + (seq![sample_view(s)] + samples_spec(lines_spec(next))));
                }
            },
            None => {
                proof {
                    assert(Seq::<SampleView>::empty() + samples_spec(lines_spec(next)) =~= samples_spec(
                        lines_spec(next),
                    ));
                }
            },
        }
        if nl < n {
            start = nl + 1;
        } else {
            start = n;
        }
    }
    proof {
        assert(v@.subrange(n as int, n as int) =~= Seq::<char>::empty());
        assert(sample_views(out@) + Seq::<SampleView>::empty() =~= sample_views(out@));
    }
    out
}

/// One step of `lines_spec` on `v[start..]`, whose first newline (or end)
/// is at `nl` and whose first line ends at `end`.
proof fn lemma_lines_step(v: Seq<char>, start: int, nl: int, end: int)
    requires
        0 <= start < nl + 1,
        start <= nl <= v.len(),
        first_index(v.subrange(start, v.len() as int), '\n') == (if nl < v.len() {
            Some(nl - start)
        } else {
            None::<int>
        }),
        end == (if nl > start && nl < v.len() && v[nl - 1] == '\r' {
            nl - 1
        } else {
            nl
        }),
        start < v.len(),
    ensures
        samples_spec(lines_spec(v.subrange(start, v.len() as int))) == (match parse_line_spec(
            v.subrange(start, end),
        ) {
            Some(s) => seq![s],
            None => Seq::empty(),
        }) + samples_spec(
            lines_spec(
                if nl < v.len() {
                    v.subrange(nl + 1, v.len() as int)
                } else {
                    v.subrange(v.len() as int, v.len() as int)
                },
            ),
        ),
{
    let rest = v.subrange(start, v.len() as int);
    let line = v.subrange(start, end);
    if nl < v.len() {
        assert(rest.subrange(0, nl - start) =~= v.subrange(start, nl));
        assert(strip_cr(v.subrange(start, nl)) =~= line);
        assert(rest.subrange(nl - start + 1, rest.len() as int) =~= v.subrange(nl + 1, v.len() as int));
        assert(lines_spec(rest) == seq![line] + lines_spec(v.subrange(nl + 1, v.len() as int)));
        lemma_samples_cons(line, lines_spec(v.subrange(nl + 1, v.len() as int)));
    } else {
        assert(line =~= rest);
        assert(lines_spec(rest) == seq![line]);
        let e = v.subrange(v.len() as int, v.len() as int);
        assert(e =~= Seq::<char>::empty());
        assert(lines_spec(e) =~= Seq::<Seq<char>>::empty());
        assert(seq![line] + Seq::<Seq<char>>::empty() =~= seq![line]);
        lemma_samples_cons(line, Seq::<Seq<char>>::empty());
    }
}

proof fn lemma_samples_cons(line: Seq<char>, rest: Seq<Seq<char>>)
    ensures
        samples_spec(seq![line] + rest) == (match parse_line_spec(line) {
            Some(s) => seq![s],
            None => Seq::empty(),
        }) + samples_spec(rest),
    decreases rest.len(),
{
    let head: Seq<SampleView> = match parse_line_spec(line) {
        Some(s) => seq![s],
        None => Seq::empty(),
    };
    if rest.len() == 0 {
        assert(seq![line] + rest =~= seq![line]);
        assert(seq![line].drop_last() =~= Seq::<Seq<char>>::empty());
        assert(samples_spec(Seq::<Seq<char>>::empty()) =~= Seq::<SampleView>::empty());
        assert(head + Seq::<SampleView>::empty() =~= head);
        match parse_line_spec(line) {
            Some(s) => {
                assert(Seq::<SampleView>::empty().push(s) =~= seq![s]);
            },
            None => {},
        }
    } else {
        lemma_samples_cons(line, rest.drop_last());
        assert((seq![line] + rest).drop_last() =~= seq![line] + rest.drop_last());
        assert((seq![line] + rest).last() == rest.last());
        let p = samples_spec(rest.drop_last());
        match parse_line_spec(rest.last()) {
            Some(s) => {
                assert((head + p).push(s) =~= head + p.push(s));
            },
            None => {},
        }
    }
}

/// The part after the last `:` (all of `s` when there is none).
pub open spec fn tail_after(s: Seq<char>, c: char) -> Seq<char>
    decreases s.len(),
{
    if s.len() == 0 || s.last() == c {
        Seq::empty()
    } else {
        tail_after(s.drop_last(), c).push(s.last())
    }
}

/// The part before the last `:` (empty when there is none).
pub open spec fn head_before(s: Seq<char>, c: char) -> Seq<char>
    decreases s.len(),
{
    if s.len() == 0 {
        Seq::empty()
    } else if s.last() == c {
        s.drop_last()
    } else {
        head_before(s.drop_last(), c)
    }
}

/// `"{device}:{function}"` of a bus id, lower-case: the last two
/// `:`-separated parts, so `00000000:01:00.0` and `0000:01:00.0` agree.
pub open spec fn bdf_tail_spec(bdf: Seq<char>) -> Seq<char> {
    let function = tail_after(bdf, ':');
    let device = tail_after(head_before(bdf, ':'), ':');
    lower_seq(device + ":"@ + function)
}

proof fn lemma_split_last(s: Seq<char>, c: char, k: int)
    requires
        0 <= k <= s.len(),
        forall|j: int| k <= j < s.len() ==> s[j] != c,
        k > 0 ==> s[k - 1] == c,
        k == 0 ==> forall|j: int| 0 <= j < s.len() ==> s[j] != c,
    ensures
        tail_after(s, c) == s.subrange(k, s.len() as int),
        head_before(s, c) == (if k > 0 {
            s.subrange(0, k - 1)
        } else {
            Seq::<char>::empty()
        }),
    decreases s.len(),
{
    if s.len() == 0 {
    } else if k == s.len() {
        assert(s.subrange(k, s.len() as int) =~= Seq::<char>::empty());
        assert(s.drop_last() =~= s.subrange(0, k - 1));
    } else {
        lemma_split_last(s.drop_last(), c, k);
        assert(s.subrange(k, s.len() as int) =~= s.drop_last().subrange(k, s.len() - 1).push(
            s.last(),
        ));
        if k > 0 {
            assert(s.drop_last().subrange(0, k - 1) =~= s.subrange(0, k - 1));
        }
    }
}

/// Position just after the last `c` in `v[..to]`, or 0.
fn after_last_index(v: &Vec<char>, to: usize, c: char) -> (r: usize)
    requires
        to <= v@.len(),
    ensures
        r <= to,
        tail_after(v@.subrange(0, to as int), c) == v@.subrange(r as int, to as int),
        head_before(v@.subrange(0, to as int), c) == (if r > 0 {
            v@.subrange(0, r - 1)
        } else {
            Seq::<char>::empty()
        }),
{
    let mut k = to;
    while k > 0 && v[k - 1] != c
        invariant
            k <= to,
            to <= v@.len(),
            forall|j: int| k <= j < to ==> v@[j] != c,
        decreases k,
    {
        k = k - 1;
    }
    proof {
        let s = v@.subrange(0, to as int);
        assert forall|j: int| k <= j < s.len() implies s[j] != c by {
            assert(s[j] == v@[j]);
        }
        if k > 0 {
            assert(s[k - 1] == v@[k - 1]);
        }
        lemma_split_last(s, c, k as int);
        assert(s.subrange(k as int, to as int) =~= v@.subrange(k as int, to as int));
        if k > 0 {
            assert(s.subrange(0, k - 1) =~= v@.subrange(0, k - 1));
        }
    }
    k
}

pub fn bdf_tail(bdf: &str) -> (r: String)
    ensures
        r@ == bdf_tail_spec(bdf@),
{
    let v = chars_of(bdf);
    let n = v.len();
    let k = after_last_index(&v, n, ':');
    proof {
        assert(v@.subrange(0, n as int) =~= v@);
    }
    let (ds, de) = if k > 0 {
        let j = after_last_index(&v, k - 1, ':');
        (j, k - 1)
    } else {
        proof {
            assert(tail_after(Seq::<char>::empty(), ':') =~= Seq::<char>::empty());
        }
        (0, 0)
    };
    let device = string_of_range(&v, ds, de);
    let function = string_of_range(&v, k, n);
    let mut joined = device;
    joined.append(":");
    joined.append(function.as_str());
    to_lower(joined.as_str())
}

/// How `apply_samples` changes one device.
pub open spec fn applied(gpu: NodeGpu, samples: Seq<GpuSample>, out: NodeGpu) -> bool {
    if "janus:"@.is_prefix_of(gpu.bdf@) || !exists|i: int|
        0 <= i < samples.len() && bdf_tail_spec((#[trigger] samples[i]).bdf@) == bdf_tail_spec(gpu.bdf@) {
        out == gpu
    } else {
        exists|i: int|
            0 <= i < samples.len() && bdf_tail_spec((#[trigger] samples[i]).bdf@) == bdf_tail_spec(gpu.bdf@)
                && (forall|j: int| 0 <= j < i ==> bdf_tail_spec(#[trigger] samples[j].bdf@) != bdf_tail_spec(gpu.bdf@))
                && out == (NodeGpu {
                temperature_c: samples[i].temperature_c,
                power_watts: samples[i].power_watts,
                ecc_errors: samples[i].ecc_errors,
                ..gpu
            })
    }
}

/// Copies each reading onto the device whose bus id it matches (by the last
/// two parts of the id, ignoring case). Janus devices are skipped.
pub fn apply_samples(gpus: &mut Vec<NodeGpu>, samples: &[GpuSample])
    ensures
        final(gpus)@.len() == old(gpus)@.len(),
        forall|k: int| 0 <= k < old(gpus)@.len() ==> applied(#[trigger] old(gpus)@[k], samples@, final(gpus)@[k]),
{
    let ghost orig = gpus@;
    let mut k: usize = 0;
    while k < gpus.len()
        invariant
            gpus@.len() == orig.len(),
            k <= gpus@.len(),
            forall|j: int| k <= j < gpus@.len() ==> gpus@[j] == orig[j],
            forall|j: int| 0 <= j < k ==> applied(#[trigger] orig[j], samples@, gpus@[j]),
        decreases gpus.len() - k,
    {
        if starts_with(gpus[k].bdf.as_str(), "janus:") {
            k = k + 1;
            continue;
        }
        let tail = bdf_tail(gpus[k].bdf.as_str());
        let ttail = chars_of(tail.as_str());
        let mut i: usize = 0;
        let mut found: Option<usize> = None;
        while i < samples.len() && found.is_none()
            invariant
                i <= samples@.len(),
                ttail@ == bdf_tail_spec(orig[k as int].bdf@),
                found matches Some(f) ==> f < samples@.len() && bdf_tail_spec(samples@[f as int].bdf@) == ttail@
                    && forall|j: int| 0 <= j < f ==> bdf_tail_spec(#[trigger] samples@[j].bdf@) != ttail@,
                found is None ==> forall|j: int| 0 <= j < i ==> bdf_tail_spec(#[trigger] samples@[j].bdf@) != ttail@,
            decreases samples.len() - i + (if found is None { 1int } else { 0 }),
        {
            let st = bdf_tail(samples[i].bdf.as_str());
            let sv = chars_of(st.as_str());
            if seq_eq(&sv, &ttail) {
                found = Some(i);
            } else {
                i = i + 1;
            }
        }
        match found {
            Some(f) => {
                let s = &samples[f];
                gpus[k].temperature_c = s.temperature_c;
                gpus[k].power_watts = s.power_watts;
                gpus[k].ecc_errors = s.ecc_errors;
            },
            None => {},
        }
        k = k + 1;
    }
}

} // verus!
