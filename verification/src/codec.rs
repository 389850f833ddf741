use vstd::prelude::*;
use crate::duration::DurationSample;
use crate::json::{flat_view, JVal, JsonValue};
use crate::record::{
    BenchmarkRecord, BenchmarkSystemInfo, ComputationsView, RecordView, ResultView,
    SystemInfoView, empty_record_view,
};
use crate::stats::{dur_seq, TimingMethod};

verus! {

broadcast use vstd::string::group_string_axioms;

/// Relies on `str::eq` from std: two string slices are equal exactly when
/// they consist of the same characters.
pub assume_specification[ <str as PartialEq<str>>::eq ](a: &str, b: &str) -> (r: bool)
    ensures
        r == (a@ == b@),
;

/// A flat record held an unrecognized key or a value of the wrong shape.
#[derive(Clone, Copy, Debug, PartialEq, Eq, Structural)]
pub struct MalformedRecord;

/// How one raw sample is laid out on the wire: an object holding its whole
/// seconds and its nanosecond remainder.
pub open spec fn dur_pair_jval(n: int) -> JVal {
    JVal::Obj(
        seq![
            ("secs"@, JVal::Nat(n / 1_000_000_000)),
            ("nanos"@, JVal::Nat(n % 1_000_000_000)),
        ],
    )
}

/// How the system inventory is laid out on the wire.
pub open spec fn sysinfo_jval(si: SystemInfoView) -> JVal {
    JVal::Obj(
        seq![
            ("cpus"@, JVal::Arr(si.cpus.map_values(|c: Seq<char>| JVal::Str(c)))),
            ("gpus"@, JVal::Arr(si.gpus.map_values(|g: Seq<char>| JVal::Str(g)))),
        ],
    )
}

/// How the shape list is laid out on the wire.
pub open spec fn shapes_jval(shapes: Seq<Seq<int>>) -> JVal {
    JVal::Arr(
        shapes.map_values(|row: Seq<int>| JVal::Arr(row.map_values(|n: int| JVal::Nat(n)))),
    )
}

/// The flat external form of a record: exactly these keys, in this order,
/// with durations as whole microseconds and raw samples as seconds plus
/// nanoseconds.
pub open spec fn spec_encode(v: RecordView) -> Seq<(Seq<char>, JVal)> {
    seq![
        ("backend"@, JVal::Str(v.backend)),
        ("device"@, JVal::Str(v.device)),
        ("feature"@, JVal::Str(v.feature)),
        ("gitHash"@, JVal::Str(v.results.git_hash)),
        ("burnVersion"@, JVal::Str(v.burn_version)),
        ("max"@, JVal::Nat(v.results.computed.max / 1000)),
        ("mean"@, JVal::Nat(v.results.computed.mean / 1000)),
        ("median"@, JVal::Nat(v.results.computed.median / 1000)),
        ("min"@, JVal::Nat(v.results.computed.min / 1000)),
        ("name"@, JVal::Str(v.results.name)),
        ("numSamples"@, JVal::Nat(v.results.raw.samples.len() as int)),
        (
            "options"@,
            match v.results.options {
                Some(s) => JVal::Str(s),
                None => JVal::Null,
            },
        ),
        ("rawDurations"@, JVal::Arr(v.results.raw.samples.map_values(|n: int| dur_pair_jval(n)))),
        ("systemInfo"@, sysinfo_jval(v.system_info)),
        ("shapes"@, shapes_jval(v.results.shapes)),
        ("timestamp"@, JVal::Nat(v.results.timestamp)),
        ("variance"@, JVal::Nat(v.results.computed.variance / 1000)),
    ]
}

/// A wire duration in whole microseconds, accepted when it fits a `u64`.
pub open spec fn decode_micros(v: JVal) -> Option<int> {
    match v {
        JVal::Nat(n) => if 0 <= n <= u64::MAX {
            Some(n * 1000)
        } else {
            None
        },
        _ => None,
    }
}

/// Reading the seconds/nanoseconds pairs of one wire sample, each key
/// required exactly once, in either order, nothing else accepted.
pub open spec fn decode_dur_pair_fold(
    pairs: Seq<(Seq<char>, JVal)>,
    secs: Option<int>,
    nanos: Option<int>,
) -> Option<(int, int)>
    decreases pairs.len(),
{
    if pairs.len() == 0 {
        match (secs, nanos) {
            (Some(s), Some(n)) => Some((s, n)),
            _ => None,
        }
    } else {
        let k = pairs[0].0;
        let v = pairs[0].1;
        if k == "secs"@ {
            match (v, secs) {
                (JVal::Nat(n), Option::<int>::None) => if 0 <= n <= u64::MAX {
                    decode_dur_pair_fold(pairs.drop_first(), Some(n), nanos)
                } else {
                    None
                },
                _ => None,
            }
        } else if k == "nanos"@ {
            match (v, nanos) {
                (JVal::Nat(n), Option::<int>::None) => if 0 <= n <= u32::MAX {
                    decode_dur_pair_fold(pairs.drop_first(), secs, Some(n))
                } else {
                    None
                },
                _ => None,
            }
        } else {
            None
        }
    }
}

/// One wire sample as total nanoseconds; a nanosecond part of one second or
/// more carries into the seconds, as long as the total stays representable.
pub open spec fn decode_sample(v: JVal) -> Option<int> {
    match v {
        JVal::Obj(pairs) => match decode_dur_pair_fold(pairs, None, None) {
            Some((s, n)) => if s * 1_000_000_000 + n <= DurationSample::max_total_nanos() {
                Some(s * 1_000_000_000 + n)
            } else {
                None
            },
            None => None,
        },
        _ => None,
    }
}

/// A wire list of samples, in order.
pub open spec fn decode_samples(items: Seq<JVal>) -> Option<Seq<int>>
    decreases items.len(),
{
    if items.len() == 0 {
        Some(Seq::empty())
    } else {
        match decode_sample(items[0]) {
            Some(n) => match decode_samples(items.drop_first()) {
                Some(rest) => Some(Seq::empty().push(n) + rest),
                None => None,
            },
            None => None,
        }
    }
}

/// A wire list of strings, in order.
pub open spec fn decode_strings(items: Seq<JVal>) -> Option<Seq<Seq<char>>>
    decreases items.len(),
{
    if items.len() == 0 {
        Some(Seq::empty())
    } else {
        match items[0] {
            JVal::Str(s) => match decode_strings(items.drop_first()) {
                Some(rest) => Some(Seq::empty().push(s) + rest),
                None => None,
            },
            _ => None,
        }
    }
}

/// One wire shape row: a list of dimensions, each fitting a `usize`.
pub open spec fn decode_shape_row(items: Seq<JVal>) -> Option<Seq<int>>
    decreases items.len(),
{
    if items.len() == 0 {
        Some(Seq::empty())
    } else {
        match items[0] {
            JVal::Nat(n) => if 0 <= n <= usize::MAX {
                match decode_shape_row(items.drop_first()) {
                    Some(rest) => Some(Seq::empty().push(n) + rest),
                    None => None,
                }
            } else {
                None
            },
            _ => None,
        }
    }
}

/// The wire shape list: a list of rows.
pub open spec fn decode_shapes(items: Seq<JVal>) -> Option<Seq<Seq<int>>>
    decreases items.len(),
{
    if items.len() == 0 {
        Some(Seq::empty())
    } else {
        match items[0] {
            JVal::Arr(row) => match decode_shape_row(row) {
                Some(r) => match decode_shapes(items.drop_first()) {
                    Some(rest) => Some(Seq::empty().push(r) + rest),
                    None => None,
                },
                None => None,
            },
            _ => None,
        }
    }
}

/// Reading the system inventory object: `cpus` and `gpus` each required
/// exactly once, in any order, unrecognized keys ignored.
pub open spec fn decode_sysinfo_fold(
    pairs: Seq<(Seq<char>, JVal)>,
    cpus: Option<Seq<Seq<char>>>,
    gpus: Option<Seq<Seq<char>>>,
) -> Option<SystemInfoView>
    decreases pairs.len(),
{
    if pairs.len() == 0 {
        match (cpus, gpus) {
            (Some(c), Some(g)) => Some(SystemInfoView { cpus: c, gpus: g }),
            _ => None,
        }
    } else {
        let k = pairs[0].0;
        let v = pairs[0].1;
        if k == "cpus"@ {
            match (v, cpus) {
                (JVal::Arr(items), Option::<Seq<Seq<char>>>::None) => match decode_strings(items) {
                    Some(c) => decode_sysinfo_fold(pairs.drop_first(), Some(c), gpus),
                    None => None,
                },
                _ => None,
            }
        } else if k == "gpus"@ {
            match (v, gpus) {
                (JVal::Arr(items), Option::<Seq<Seq<char>>>::None) => match decode_strings(items) {
                    Some(g) => decode_sysinfo_fold(pairs.drop_first(), cpus, Some(g)),
                    None => None,
                },
                _ => None,
            }
        } else {
            decode_sysinfo_fold(pairs.drop_first(), cpus, gpus)
        }
    }
}

/// What one key of the flat form contributes to the record being decoded:
/// the updated record, or nothing when the key is unrecognized or its value
/// has the wrong shape. `numSamples` is read and discarded; the sample list
/// alone is authoritative.
pub open spec fn decode_field(acc: RecordView, key: Seq<char>, val: JVal) -> Option<RecordView> {
    if key == "backend"@ {
        match val {
            JVal::Str(s) => Some(RecordView { backend: s, ..acc }),
            _ => None,
        }
    } else if key == "device"@ {
        match val {
            JVal::Str(s) => Some(RecordView { device: s, ..acc }),
            _ => None,
        }
    } else if key == "feature"@ {
        match val {
            JVal::Str(s) => Some(RecordView { feature: s, ..acc }),
            _ => None,
        }
    } else if key == "burnVersion"@ {
        match val {
            JVal::Str(s) => Some(RecordView { burn_version: s, ..acc }),
            _ => None,
        }
    } else if key == "gitHash"@ {
        match val {
            JVal::Str(s) => Some(
                RecordView { results: ResultView { git_hash: s, ..acc.results }, ..acc },
            ),
            _ => None,
        }
    } else if key == "name"@ {
        match val {
            JVal::Str(s) => Some(RecordView { results: ResultView { name: s, ..acc.results }, ..acc }),
            _ => None,
        }
    } else if key == "max"@ {
        match decode_micros(val) {
            Some(n) => Some(
                RecordView {
                    results: ResultView {
                        computed: ComputationsView { max: n, ..acc.results.computed },
                        ..acc.results
                    },
                    ..acc
                },
            ),
            None => None,
        }
    } else if key == "mean"@ {
        match decode_micros(val) {
            Some(n) => Some(
                RecordView {
                    results: ResultView {
                        computed: ComputationsView { mean: n, ..acc.results.computed },
                        ..acc.results
                    },
                    ..acc
                },
            ),
            None => None,
        }
    } else if key == "median"@ {
        match decode_micros(val) {
            Some(n) => Some(
                RecordView {
                    results: ResultView {
                        computed: ComputationsView { median: n, ..acc.results.computed },
                        ..acc.results
                    },
                    ..acc
                },
            ),
            None => None,
        }
    } else if key == "min"@ {
        match decode_micros(val) {
            Some(n) => Some(
                RecordView {
                    results: ResultView {
                        computed: ComputationsView { min: n, ..acc.results.computed },
                        ..acc.results
                    },
                    ..acc
                },
            ),
            None => None,
        }
    } else if key == "variance"@ {
        match decode_micros(val) {
            Some(n) => Some(
                RecordView {
                    results: ResultView {
                        computed: ComputationsView { variance: n, ..acc.results.computed },
                        ..acc.results
                    },
                    ..acc
                },
            ),
            None => None,
        }
    } else if key == "numSamples"@ {
        match val {
            JVal::Nat(n) => if 0 <= n <= usize::MAX {
                Some(acc)
            } else {
                None
            },
            _ => None,
        }
    } else if key == "options"@ {
        match val {
            JVal::Null => Some(
                RecordView { results: ResultView { options: None, ..acc.results }, ..acc },
            ),
            JVal::Str(s) => Some(
                RecordView { results: ResultView { options: Some(s), ..acc.results }, ..acc },
            ),
            _ => None,
        }
    } else if key == "rawDurations"@ {
        match val {
            JVal::Arr(items) => match decode_samples(items) {
                Some(samples) => Some(
                    RecordView {
                        results: ResultView {
                            raw: crate::record::DurationsView { samples, ..acc.results.raw },
                            ..acc.results
                        },
                        ..acc
                    },
                ),
                None => None,
            },
            _ => None,
        }
    } else if key == "systemInfo"@ {
        match val {
            JVal::Obj(pairs) => match decode_sysinfo_fold(pairs, None, None) {
                Some(si) => Some(RecordView { system_info: si, ..acc }),
                None => None,
            },
            _ => None,
        }
    } else if key == "shapes"@ {
        match val {
            JVal::Arr(rows) => match decode_shapes(rows) {
                Some(shapes) => Some(
                    RecordView { results: ResultView { shapes, ..acc.results }, ..acc },
                ),
                None => None,
            },
            _ => None,
        }
    } else if key == "timestamp"@ {
        match val {
            JVal::Nat(n) => if 0 <= n <= u128::MAX {
                Some(RecordView { results: ResultView { timestamp: n, ..acc.results }, ..acc })
            } else {
                None
            },
            _ => None,
        }
    } else {
        None
    }
}

/// Reading a flat form key by key, left to right, onto `acc`.
pub open spec fn decode_fold(acc: RecordView, s: Seq<(Seq<char>, JVal)>) -> Option<RecordView>
    decreases s.len(),
{
    if s.len() == 0 {
        Some(acc)
    } else {
        match decode_field(acc, s[0].0, s[0].1) {
            Some(acc2) => decode_fold(acc2, s.drop_first()),
            None => None,
        }
    }
}

/// The record a flat form denotes, if it is well formed: every key read onto
/// the zeroed record, in the order given.
pub open spec fn spec_decode(s: Seq<(Seq<char>, JVal)>) -> Option<RecordView> {
    decode_fold(empty_record_view(), s)
}

} // verus!

verus! {

/// A list of JSON values as their mathematical mirrors.
pub open spec fn jvals_of(s: Seq<JsonValue>) -> Seq<JVal> {
    s.map_values(|x: JsonValue| x@)
}

/// A list of strings as character sequences.
pub open spec fn strings_view(s: Seq<String>) -> Seq<Seq<char>> {
    s.map_values(|x: String| x@)
}

/// A shape list as sequences of integers.
pub open spec fn shapes_view(s: Seq<Vec<usize>>) -> Seq<Seq<int>> {
    s.map_values(|row: Vec<usize>| row@.map_values(|n: usize| n as int))
}

spec fn opt_nat_u64(o: Option<u64>) -> Option<int> {
    match o {
        Some(n) => Some(n as int),
        None => None,
    }
}

spec fn opt_nat_u32(o: Option<u32>) -> Option<int> {
    match o {
        Some(n) => Some(n as int),
        None => None,
    }
}

fn decode_sample_exec(v: &JsonValue) -> (r: Result<DurationSample, MalformedRecord>)
    ensures
        match r {
            Ok(d) => decode_sample(v@) == Some(d@),
            Err(_) => decode_sample(v@) == None::<int>,
        },
{
    match v {
        JsonValue::Obj(pairs) => {
            let ghost pv = flat_view(pairs@);
            proof {
                assert(v@->Obj_0 =~= pv);
            }
            let n_pairs = pairs.len();
            proof {
                assert(pv.subrange(0, n_pairs as int) =~= pv);
            }
            let mut secs_acc: Option<u64> = None;
            let mut nanos_acc: Option<u32> = None;
            let mut j: usize = 0;
            #[verifier::loop_isolation(false)]
            while j < n_pairs
                invariant
                    j <= n_pairs,
                    decode_dur_pair_fold(pv, None, None) == decode_dur_pair_fold(
                        pv.subrange(j as int, n_pairs as int),
                        opt_nat_u64(secs_acc),
                        opt_nat_u32(nanos_acc),
                    ),
                decreases n_pairs - j,
            {
                let ghost rest = pv.subrange(j as int, n_pairs as int);
                proof {
                    assert(rest.drop_first() =~= pv.subrange(j as int + 1, n_pairs as int));
                    assert(rest[0] == pv[j as int]);
                }
                let key = &pairs[j].0;
                let val = &pairs[j].1;
                if key.as_str().eq("secs") {
                    if secs_acc.is_some() {
                        return Err(MalformedRecord);
                    }
                    match val {
                        JsonValue::Nat(n) => {
                            if *n <= u64::MAX as u128 {
                                secs_acc = Some(*n as u64);
                            } else {
                                return Err(MalformedRecord);
                            }
                        },
                        _ => {
                            return Err(MalformedRecord);
                        },
                    }
                } else if key.as_str().eq("nanos") {
                    if nanos_acc.is_some() {
                        return Err(MalformedRecord);
                    }
                    match val {
                        JsonValue::Nat(n) => {
                            if *n <= u32::MAX as u128 {
                                nanos_acc = Some(*n as u32);
                            } else {
                                return Err(MalformedRecord);
                            }
                        },
                        _ => {
                            return Err(MalformedRecord);
                        },
                    }
                } else {
                    return Err(MalformedRecord);
                }
                j = j + 1;
            }
            proof {
                assert(pv.subrange(n_pairs as int, n_pairs as int) =~= Seq::<(Seq<char>, JVal)>::empty());
            }
            match (secs_acc, nanos_acc) {
                (Some(s), Some(n)) => {
                    let total: u128 = (s as u128) * 1_000_000_000 + (n as u128);
                    let limit: u128 = (u64::MAX as u128) * 1_000_000_000 + 999_999_999;
                    if total <= limit {
                        Ok(DurationSample::from_total_nanos(total))
                    } else {
                        Err(MalformedRecord)
                    }
                },
                _ => Err(MalformedRecord),
            }
        },
        _ => Err(MalformedRecord),
    }
}

fn decode_samples_exec(items: &Vec<JsonValue>) -> (r: Result<Vec<DurationSample>, MalformedRecord>)
    ensures
        match r {
            Ok(out) => decode_samples(jvals_of(items@)) == Some(dur_seq(out@)),
            Err(_) => decode_samples(jvals_of(items@)) == None::<Seq<int>>,
        },
{
    let ghost whole = jvals_of(items@);
    let n = items.len();
    let mut out: Vec<DurationSample> = Vec::new();
    let mut j: usize = 0;
    proof {
        assert(whole.subrange(0, n as int) =~= whole);
    }
    #[verifier::loop_isolation(false)]
    while j < n
        invariant
            j <= n,
            out@.len() == j,
            match decode_samples(whole.subrange(j as int, n as int)) {
                Some(rest) => decode_samples(whole) == Some(dur_seq(out@) + rest),
                None => decode_samples(whole) == None::<Seq<int>>,
            },
        decreases n - j,
    {
        let ghost rest_seq = whole.subrange(j as int, n as int);
        proof {
            assert(rest_seq.drop_first() =~= whole.subrange(j as int + 1, n as int));
            assert(rest_seq[0] == whole[j as int]);
            assert(whole[j as int] == items@[j as int]@);
        }
        match decode_sample_exec(&items[j]) {
            Ok(d) => {
                let ghost before = out@;
                out.push(d);
                proof {
                    assert(dur_seq(out@) =~= dur_seq(before).push(d@));
                    if let Some(rest2) = decode_samples(whole.subrange(j as int + 1, n as int)) {
                        assert(dur_seq(before) + (Seq::empty().push(d@) + rest2)
                            =~= dur_seq(out@) + rest2);
                    }
                }
            },
            Err(_) => {
                return Err(MalformedRecord);
            },
        }
        j = j + 1;
    }
    proof {
        assert(whole.subrange(n as int, n as int) =~= Seq::<JVal>::empty());
        assert(dur_seq(out@) + Seq::<int>::empty() =~= dur_seq(out@));
    }
    Ok(out)
}

fn decode_strings_exec(items: &Vec<JsonValue>) -> (r: Result<Vec<String>, MalformedRecord>)
    ensures
        match r {
            Ok(out) => decode_strings(jvals_of(items@)) == Some(strings_view(out@)),
            Err(_) => decode_strings(jvals_of(items@)) == None::<Seq<Seq<char>>>,
        },
{
    let ghost whole = jvals_of(items@);
    let n = items.len();
    let mut out: Vec<String> = Vec::new();
    let mut j: usize = 0;
    proof {
        assert(whole.subrange(0, n as int) =~= whole);
    }
    #[verifier::loop_isolation(false)]
    while j < n
        invariant
            j <= n,
            out@.len() == j,
            match decode_strings(whole.subrange(j as int, n as int)) {
                Some(rest) => decode_strings(whole) == Some(strings_view(out@) + rest),
                None => decode_strings(whole) == None::<Seq<Seq<char>>>,
            },
        decreases n - j,
    {
        let ghost rest_seq = whole.subrange(j as int, n as int);
        proof {
            assert(rest_seq.drop_first() =~= whole.subrange(j as int + 1, n as int));
            assert(rest_seq[0] == whole[j as int]);
            assert(whole[j as int] == items@[j as int]@);
        }
        match &items[j] {
            JsonValue::Str(s) => {
                let ghost before = out@;
                out.push(s.clone());
                proof {
                    assert(strings_view(out@) =~= strings_view(before).push(s@));
                    if let Some(rest2) = decode_strings(whole.subrange(j as int + 1, n as int)) {
                        assert(strings_view(before) + (Seq::empty().push(s@) + rest2)
                            =~= strings_view(out@) + rest2);
                    }
                }
            },
            _ => {
                return Err(MalformedRecord);
            },
        }
        j = j + 1;
    }
    proof {
        assert(whole.subrange(n as int, n as int) =~= Seq::<JVal>::empty());
        assert(strings_view(out@) + Seq::<Seq<char>>::empty() =~= strings_view(out@));
    }
    Ok(out)
}

} // verus!

verus! {

fn decode_shape_row_exec(items: &Vec<JsonValue>) -> (r: Result<Vec<usize>, MalformedRecord>)
    ensures
        match r {
            Ok(out) => decode_shape_row(jvals_of(items@)) == Some(
                out@.map_values(|n: usize| n as int),
            ),
            Err(_) => decode_shape_row(jvals_of(items@)) == None::<Seq<int>>,
        },
{
    let ghost whole = jvals_of(items@);
    let n = items.len();
    let mut out: Vec<usize> = Vec::new();
    let mut j: usize = 0;
    proof {
        assert(whole.subrange(0, n as int) =~= whole);
    }
    #[verifier::loop_isolation(false)]
    while j < n
        invariant
            j <= n,
            out@.len() == j,
            match decode_shape_row(whole.subrange(j as int, n as int)) {
                Some(rest) => decode_shape_row(whole) == Some(
                    out@.map_values(|n: usize| n as int) + rest,
                ),
                None => decode_shape_row(whole) == None::<Seq<int>>,
            },
        decreases n - j,
    {
        let ghost rest_seq = whole.subrange(j as int, n as int);
        proof {
            assert(rest_seq.drop_first() =~= whole.subrange(j as int + 1, n as int));
            assert(rest_seq[0] == whole[j as int]);
            assert(whole[j as int] == items@[j as int]@);
        }
        match &items[j] {
            JsonValue::Nat(d) => {
                if *d <= usize::MAX as u128 {
                    let ghost before = out@;
                    out.push(*d as usize);
                    proof {
                        assert(out@.map_values(|n: usize| n as int)
                            =~= before.map_values(|n: usize| n as int).push(*d as int));
                        if let Some(rest2) = decode_shape_row(
                            whole.subrange(j as int + 1, n as int),
                        ) {
                            assert(before.map_values(|n: usize| n as int)
                                + (Seq::empty().push(*d as int) + rest2)
                                =~= out@.map_values(|n: usize| n as int) + rest2);
                        }
                    }
                } else {
                    return Err(MalformedRecord);
                }
            },
            _ => {
                return Err(MalformedRecord);
            },
        }
        j = j + 1;
    }
    proof {
        assert(whole.subrange(n as int, n as int) =~= Seq::<JVal>::empty());
        assert(out@.map_values(|n: usize| n as int) + Seq::<int>::empty()
            =~= out@.map_values(|n: usize| n as int));
    }
    Ok(out)
}

fn decode_shapes_exec(items: &Vec<JsonValue>) -> (r: Result<Vec<Vec<usize>>, MalformedRecord>)
    ensures
        match r {
            Ok(out) => decode_shapes(jvals_of(items@)) == Some(shapes_view(out@)),
            Err(_) => decode_shapes(jvals_of(items@)) == None::<Seq<Seq<int>>>,
        },
{
    let ghost whole = jvals_of(items@);
    let n = items.len();
    let mut out: Vec<Vec<usize>> = Vec::new();
    let mut j: usize = 0;
    proof {
        assert(whole.subrange(0, n as int) =~= whole);
    }
    #[verifier::loop_isolation(false)]
    while j < n
        invariant
            j <= n,
            out@.len() == j,
            match decode_shapes(whole.subrange(j as int, n as int)) {
                Some(rest) => decode_shapes(whole) == Some(shapes_view(out@) + rest),
                None => decode_shapes(whole) == None::<Seq<Seq<int>>>,
            },
        decreases n - j,
    {
        let ghost rest_seq = whole.subrange(j as int, n as int);
        proof {
            assert(rest_seq.drop_first() =~= whole.subrange(j as int + 1, n as int));
            assert(rest_seq[0] == whole[j as int]);
            assert(whole[j as int] == items@[j as int]@);
        }
        match &items[j] {
            JsonValue::Arr(row_vals) => {
                proof {
                    assert(items@[j as int]@->Arr_0 =~= jvals_of(row_vals@));
                }
                match decode_shape_row_exec(row_vals) {
                    Ok(row) => {
                        let ghost before = out@;
                        let ghost row_ints = row@.map_values(|n: usize| n as int);
                        out.push(row);
                        proof {
                            assert(shapes_view(out@) =~= shapes_view(before).push(row_ints));
                            if let Some(rest2) = decode_shapes(
                                whole.subrange(j as int + 1, n as int),
                            ) {
                                assert(shapes_view(before) + (Seq::empty().push(row_ints) + rest2)
                                    =~= shapes_view(out@) + rest2);
                            }
                        }
                    },
                    Err(_) => {
                        return Err(MalformedRecord);
                    },
                }
            },
            _ => {
                return Err(MalformedRecord);
            },
        }
        j = j + 1;
    }
    proof {
        assert(whole.subrange(n as int, n as int) =~= Seq::<JVal>::empty());
        assert(shapes_view(out@) + Seq::<Seq<int>>::empty() =~= shapes_view(out@));
    }
    Ok(out)
}

spec fn opt_strings(o: Option<Vec<String>>) -> Option<Seq<Seq<char>>> {
    match o {
        Some(v) => Some(strings_view(v@)),
        None => None,
    }
}

fn decode_sysinfo_exec(pairs: &Vec<(String, JsonValue)>) -> (r: Result<
    BenchmarkSystemInfo,
    MalformedRecord,
>)
    ensures
        match r {
            Ok(si) => decode_sysinfo_fold(flat_view(pairs@), None, None) == Some(si@),
            Err(_) => decode_sysinfo_fold(flat_view(pairs@), None, None)
                == None::<SystemInfoView>,
        },
{
    let ghost pv = flat_view(pairs@);
    let n_pairs = pairs.len();
    let mut cpus_acc: Option<Vec<String>> = None;
    let mut gpus_acc: Option<Vec<String>> = None;
    let mut j: usize = 0;
    proof {
        assert(pv.subrange(0, n_pairs as int) =~= pv);
    }
    #[verifier::loop_isolation(false)]
    while j < n_pairs
        invariant
            j <= n_pairs,
            decode_sysinfo_fold(pv, None, None) == decode_sysinfo_fold(
                pv.subrange(j as int, n_pairs as int),
                opt_strings(cpus_acc),
                opt_strings(gpus_acc),
            ),
        decreases n_pairs - j,
    {
        let ghost rest = pv.subrange(j as int, n_pairs as int);
        proof {
            assert(rest.drop_first() =~= pv.subrange(j as int + 1, n_pairs as int));
            assert(rest[0] == pv[j as int]);
        }
        let key = &pairs[j].0;
        let val = &pairs[j].1;
        if key.as_str().eq("cpus") {
            if cpus_acc.is_some() {
                return Err(MalformedRecord);
            }
            match val {
                JsonValue::Arr(items) => {
                    proof {
                        assert(pairs@[j as int].1@->Arr_0 =~= jvals_of(items@));
                    }
                    match decode_strings_exec(items) {
                        Ok(cs) => {
                            cpus_acc = Some(cs);
                        },
                        Err(_) => {
                            return Err(MalformedRecord);
                        },
                    }
                },
                _ => {
                    return Err(MalformedRecord);
                },
            }
        } else if key.as_str().eq("gpus") {
            if gpus_acc.is_some() {
                return Err(MalformedRecord);
            }
            match val {
                JsonValue::Arr(items) => {
                    proof {
                        assert(pairs@[j as int].1@->Arr_0 =~= jvals_of(items@));
                    }
                    match decode_strings_exec(items) {
                        Ok(gs) => {
                            gpus_acc = Some(gs);
                        },
                        Err(_) => {
                            return Err(MalformedRecord);
                        },
                    }
                },
                _ => {
                    return Err(MalformedRecord);
                },
            }
        }
        j = j + 1;
    }
    proof {
        assert(pv.subrange(n_pairs as int, n_pairs as int) =~= Seq::<(Seq<char>, JVal)>::empty());
    }
    match (cpus_acc, gpus_acc) {
        (Some(cpus), Some(gpus)) => Ok(BenchmarkSystemInfo { cpus, gpus }),
        _ => Err(MalformedRecord),
    }
}

} // verus!

verus! {

/// Rebuild a record from its flat external form.
///
/// Keys may come in any order; later occurrences of a key overwrite earlier
/// ones; keys that are absent leave the zeroed default in place. `numSamples`
/// is read and discarded: the length of `rawDurations` is authoritative. Any
/// unrecognized key, and any value of the wrong shape, is a `MalformedRecord`
/// error.
pub fn decode_record(m: &Vec<(String, JsonValue)>) -> (r: Result<BenchmarkRecord, MalformedRecord>)
    ensures
        match r {
            Ok(rec) => spec_decode(flat_view(m@)) == Some(rec@),
            Err(_) => spec_decode(flat_view(m@)) == None::<RecordView>,
        },
{
    let ghost pv = flat_view(m@);
    let n_pairs = m.len();
    let mut rec = BenchmarkRecord::default();
    let mut j: usize = 0;
    proof {
        assert(pv.subrange(0, n_pairs as int) =~= pv);
    }
    #[verifier::loop_isolation(false)]
    while j < n_pairs
        invariant
            j <= n_pairs,
            spec_decode(pv) == decode_fold(rec@, pv.subrange(j as int, n_pairs as int)),
        decreases n_pairs - j,
    {
        let ghost rest = pv.subrange(j as int, n_pairs as int);
        proof {
            assert(rest.drop_first() =~= pv.subrange(j as int + 1, n_pairs as int));
            assert(rest[0] == pv[j as int]);
        }
        let key = &m[j].0;
        let val = &m[j].1;
        if key.as_str().eq("backend") {
            match val {
                JsonValue::Str(s) => {
                    rec.backend = s.clone();
                },
                _ => {
                    return Err(MalformedRecord);
                },
            }
        } else if key.as_str().eq("device") {
            match val {
                JsonValue::Str(s) => {
                    rec.device = s.clone();
                },
                _ => {
                    return Err(MalformedRecord);
                },
            }
        } else if key.as_str().eq("feature") {
            match val {
                JsonValue::Str(s) => {
                    rec.feature = s.clone();
                },
                _ => {
                    return Err(MalformedRecord);
                },
            }
        } else if key.as_str().eq("burnVersion") {
            match val {
                JsonValue::Str(s) => {
                    rec.burn_version = s.clone();
                },
                _ => {
                    return Err(MalformedRecord);
                },
            }
        } else if key.as_str().eq("gitHash") {
            match val {
                JsonValue::Str(s) => {
                    rec.results.git_hash = s.clone();
                },
                _ => {
                    return Err(MalformedRecord);
                },
            }
        } else if key.as_str().eq("name") {
            match val {
                JsonValue::Str(s) => {
                    rec.results.name = s.clone();
                },
                _ => {
                    return Err(MalformedRecord);
                },
            }
        } else if key.as_str().eq("max") {
            match val {
                JsonValue::Nat(v_micros) => {
                    if *v_micros <= u64::MAX as u128 {
                        rec.results.computed.max = DurationSample::from_micros(*v_micros as u64);
                    } else {
                        return Err(MalformedRecord);
                    }
                },
                _ => {
                    return Err(MalformedRecord);
                },
            }
        } else if key.as_str().eq("mean") {
            match val {
                JsonValue::Nat(v_micros) => {
                    if *v_micros <= u64::MAX as u128 {
                        rec.results.computed.mean = DurationSample::from_micros(*v_micros as u64);
                    } else {
                        return Err(MalformedRecord);
                    }
                },
                _ => {
                    return Err(MalformedRecord);
                },
            }
        } else if key.as_str().eq("median") {
            match val {
                JsonValue::Nat(v_micros) => {
                    if *v_micros <= u64::MAX as u128 {
                        rec.results.computed.median = DurationSample::from_micros(
                            *v_micros as u64,
                        );
                    } else {
                        return Err(MalformedRecord);
                    }
                },
                _ => {
                    return Err(MalformedRecord);
                },
            }
        } else if key.as_str().eq("min") {
            match val {
                JsonValue::Nat(v_micros) => {
                    if *v_micros <= u64::MAX as u128 {
                        rec.results.computed.min = DurationSample::from_micros(*v_micros as u64);
                    } else {
                        return Err(MalformedRecord);
                    }
                },
                _ => {
                    return Err(MalformedRecord);
                },
            }
        } else if key.as_str().eq("variance") {
            match val {
                JsonValue::Nat(v_micros) => {
                    if *v_micros <= u64::MAX as u128 {
                        rec.results.computed.variance = DurationSample::from_micros(
                            *v_micros as u64,
                        );
                    } else {
                        return Err(MalformedRecord);
                    }
                },
                _ => {
                    return Err(MalformedRecord);
                },
            }
        } else if key.as_str().eq("numSamples") {
            match val {
                JsonValue::Nat(count) => {
                    if !(*count <= usize::MAX as u128) {
                        return Err(MalformedRecord);
                    }
                },
                _ => {
                    return Err(MalformedRecord);
                },
            }
        } else if key.as_str().eq("options") {
            match val {
                JsonValue::Null => {
                    rec.results.options = None;
                },
                JsonValue::Str(s) => {
                    rec.results.options = Some(s.clone());
                },
                _ => {
                    return Err(MalformedRecord);
                },
            }
        } else if key.as_str().eq("rawDurations") {
            match val {
                JsonValue::Arr(items) => {
                    proof {
                        assert(m@[j as int].1@->Arr_0 =~= jvals_of(items@));
                    }
                    match decode_samples_exec(items) {
                        Ok(ds) => {
                            rec.results.raw.durations = ds;
                        },
                        Err(_) => {
                            return Err(MalformedRecord);
                        },
                    }
                },
                _ => {
                    return Err(MalformedRecord);
                },
            }
        } else if key.as_str().eq("systemInfo") {
            match val {
                JsonValue::Obj(pairs) => {
                    proof {
                        assert(m@[j as int].1@->Obj_0 =~= flat_view(pairs@));
                    }
                    match decode_sysinfo_exec(pairs) {
                        Ok(si) => {
                            rec.system_info = si;
                        },
                        Err(_) => {
                            return Err(MalformedRecord);
                        },
                    }
                },
                _ => {
                    return Err(MalformedRecord);
                },
            }
        } else if key.as_str().eq("shapes") {
            match val {
                JsonValue::Arr(rows) => {
                    proof {
                        assert(m@[j as int].1@->Arr_0 =~= jvals_of(rows@));
                    }
                    match decode_shapes_exec(rows) {
                        Ok(sh) => {
                            rec.results.shapes = sh;
                        },
                        Err(_) => {
                            return Err(MalformedRecord);
                        },
                    }
                },
                _ => {
                    return Err(MalformedRecord);
                },
            }
        } else if key.as_str().eq("timestamp") {
            match val {
                JsonValue::Nat(t) => {
                    rec.results.timestamp = *t;
                },
                _ => {
                    return Err(MalformedRecord);
                },
            }
        } else {
            return Err(MalformedRecord);
        }
        j = j + 1;
    }
    proof {
        assert(pv.subrange(n_pairs as int, n_pairs as int) =~= Seq::<(Seq<char>, JVal)>::empty());
    }
    Ok(rec)
}

} // verus!

verus! {

fn encode_sample(d: &DurationSample) -> (out: JsonValue)
    ensures
        out@ == dur_pair_jval(d@),
{
    let mut pair: Vec<(String, JsonValue)> = Vec::new();
    pair.push((String::from_str("secs"), JsonValue::Nat(d.secs() as u128)));
    pair.push((String::from_str("nanos"), JsonValue::Nat(d.subsec_nanos() as u128)));
    let out = JsonValue::Obj(pair);
    proof {
        assert(pair@.len() == 2);
        assert(pair@[0].0@ == "secs"@);
        assert(pair@[0].1@ == JVal::Nat(d@ / 1_000_000_000));
        assert(pair@[1].0@ == "nanos"@);
        assert(pair@[1].1@ == JVal::Nat(d@ % 1_000_000_000));
        assert(out@->Obj_0 =~= dur_pair_jval(d@)->Obj_0);
    }
    out
}

fn encode_samples(v: &Vec<DurationSample>) -> (out: Vec<JsonValue>)
    ensures
        jvals_of(out@) == dur_seq(v@).map_values(|n: int| dur_pair_jval(n)),
{
    let n = v.len();
    let mut out: Vec<JsonValue> = Vec::new();
    let mut j: usize = 0;
    #[verifier::loop_isolation(false)]
    while j < n
        invariant
            j <= n,
            out@.len() == j,
            forall|i: int| 0 <= i < j ==> #[trigger] out@[i]@ == dur_pair_jval(dur_seq(v@)[i]),
        decreases n - j,
    {
        let item = encode_sample(&v[j]);
        out.push(item);
        j = j + 1;
    }
    proof {
        assert(jvals_of(out@) =~= dur_seq(v@).map_values(|n: int| dur_pair_jval(n)));
    }
    out
}

fn encode_strings(v: &Vec<String>) -> (out: Vec<JsonValue>)
    ensures
        jvals_of(out@) == strings_view(v@).map_values(|c: Seq<char>| JVal::Str(c)),
{
    let n = v.len();
    let mut out: Vec<JsonValue> = Vec::new();
    let mut j: usize = 0;
    #[verifier::loop_isolation(false)]
    while j < n
        invariant
            j <= n,
            out@.len() == j,
            forall|i: int| 0 <= i < j ==> #[trigger] out@[i]@ == JVal::Str(strings_view(v@)[i]),
        decreases n - j,
    {
        out.push(JsonValue::Str(v[j].clone()));
        j = j + 1;
    }
    proof {
        assert(jvals_of(out@) =~= strings_view(v@).map_values(|c: Seq<char>| JVal::Str(c)));
    }
    out
}

fn encode_shape_row(row: &Vec<usize>) -> (out: JsonValue)
    ensures
        out@ == JVal::Arr(
            row@.map_values(|n: usize| n as int).map_values(|n: int| JVal::Nat(n)),
        ),
{
    let n = row.len();
    let mut items: Vec<JsonValue> = Vec::new();
    let mut j: usize = 0;
    #[verifier::loop_isolation(false)]
    while j < n
        invariant
            j <= n,
            items@.len() == j,
            forall|i: int| 0 <= i < j ==> #[trigger] items@[i]@ == JVal::Nat(row@[i] as int),
        decreases n - j,
    {
        items.push(JsonValue::Nat(row[j] as u128));
        j = j + 1;
    }
    let out = JsonValue::Arr(items);
    proof {
        let target = row@.map_values(|n: usize| n as int).map_values(|n: int| JVal::Nat(n));
        assert forall|i: int| 0 <= i < row@.len() implies out@->Arr_0[i] == target[i] by {
            assert(target[i] == JVal::Nat(row@[i] as int));
            assert(out@->Arr_0[i] == items@[i]@);
        }
        assert(out@->Arr_0 =~= target);
    }
    out
}

fn encode_shapes(v: &Vec<Vec<usize>>) -> (out: JsonValue)
    ensures
        out@ == shapes_jval(shapes_view(v@)),
{
    let n = v.len();
    let mut items: Vec<JsonValue> = Vec::new();
    let mut j: usize = 0;
    #[verifier::loop_isolation(false)]
    while j < n
        invariant
            j <= n,
            items@.len() == j,
            forall|i: int| 0 <= i < j ==> #[trigger] items@[i]@ == JVal::Arr(
                shapes_view(v@)[i].map_values(|n: int| JVal::Nat(n)),
            ),
        decreases n - j,
    {
        let row = encode_shape_row(&v[j]);
        proof {
            assert(shapes_view(v@)[j as int] == v@[j as int]@.map_values(|n: usize| n as int));
        }
        items.push(row);
        j = j + 1;
    }
    let out = JsonValue::Arr(items);
    proof {
        let target = shapes_view(v@).map_values(
            |row: Seq<int>| JVal::Arr(row.map_values(|n: int| JVal::Nat(n))),
        );
        assert forall|i: int| 0 <= i < v@.len() implies out@->Arr_0[i] == target[i] by {
            assert(target[i] == JVal::Arr(shapes_view(v@)[i].map_values(|n: int| JVal::Nat(n))));
            assert(out@->Arr_0[i] == items@[i]@);
        }
        assert(out@->Arr_0 =~= target);
    }
    out
}

fn encode_sysinfo(si: &BenchmarkSystemInfo) -> (out: JsonValue)
    ensures
        out@ == sysinfo_jval(si@),
{
    let cpus = encode_strings(&si.cpus);
    let gpus = encode_strings(&si.gpus);
    let mut pairs: Vec<(String, JsonValue)> = Vec::new();
    pairs.push((String::from_str("cpus"), JsonValue::Arr(cpus)));
    pairs.push((String::from_str("gpus"), JsonValue::Arr(gpus)));
    let out = JsonValue::Obj(pairs);
    proof {
        assert(si@.cpus =~= strings_view(si.cpus@));
        assert(si@.gpus =~= strings_view(si.gpus@));
        assert(pairs@.len() == 2);
        assert(pairs@[0].0@ == "cpus"@);
        assert(pairs@[0].1@ == JVal::Arr(si@.cpus.map_values(|c: Seq<char>| JVal::Str(c)))) by {
            assert(pairs@[0].1@->Arr_0 =~= jvals_of(cpus@));
        }
        assert(pairs@[1].0@ == "gpus"@);
        assert(pairs@[1].1@ == JVal::Arr(si@.gpus.map_values(|g: Seq<char>| JVal::Str(g)))) by {
            assert(pairs@[1].1@->Arr_0 =~= jvals_of(gpus@));
        }
        assert(out@->Obj_0 =~= sysinfo_jval(si@)->Obj_0);
    }
    out
}

/// Lay a record out in its flat external form: exactly the schema's keys, in
/// its order, with every duration statistic converted to whole microseconds
/// and `numSamples` regenerated from the sample list.
pub fn encode_record(r: &BenchmarkRecord) -> (out: Vec<(String, JsonValue)>)
    ensures
        flat_view(out@) == spec_encode(r@),
{
    let mut out: Vec<(String, JsonValue)> = Vec::new();
    out.push((String::from_str("backend"), JsonValue::Str(r.backend.clone())));
    out.push((String::from_str("device"), JsonValue::Str(r.device.clone())));
    out.push((String::from_str("feature"), JsonValue::Str(r.feature.clone())));
    out.push((String::from_str("gitHash"), JsonValue::Str(r.results.git_hash.clone())));
    out.push((String::from_str("burnVersion"), JsonValue::Str(r.burn_version.clone())));
    out.push((String::from_str("max"), JsonValue::Nat(r.results.computed.max.as_micros())));
    out.push((String::from_str("mean"), JsonValue::Nat(r.results.computed.mean.as_micros())));
    out.push((String::from_str("median"), JsonValue::Nat(r.results.computed.median.as_micros())));
    out.push((String::from_str("min"), JsonValue::Nat(r.results.computed.min.as_micros())));
    out.push((String::from_str("name"), JsonValue::Str(r.results.name.clone())));
    out.push((String::from_str("numSamples"), JsonValue::Nat(r.results.raw.durations.len() as u128)));
    let options_val = match &r.results.options {
        Some(s) => JsonValue::Str(s.clone()),
        None => JsonValue::Null,
    };
    out.push((String::from_str("options"), options_val));
    out.push((String::from_str("rawDurations"), JsonValue::Arr(encode_samples(&r.results.raw.durations))));
    out.push((String::from_str("systemInfo"), encode_sysinfo(&r.system_info)));
    out.push((String::from_str("shapes"), encode_shapes(&r.results.shapes)));
    out.push((String::from_str("timestamp"), JsonValue::Nat(r.results.timestamp)));
    out.push((String::from_str("variance"), JsonValue::Nat(r.results.computed.variance.as_micros())));
    proof {
        let a = flat_view(out@);
        let b = spec_encode(r@);
        assert(a.len() == 17 && b.len() == 17);
        assert(out@[12].1@->Arr_0 =~= r@.results.raw.samples.map_values(|n: int| dur_pair_jval(n)));
        assert(a =~= b);
    }
    out
}

} // verus!

verus! {

proof fn lemma_sample_round_trip(n: int)
    requires
        0 <= n <= DurationSample::max_total_nanos(),
    ensures
        decode_sample(dur_pair_jval(n)) == Some(n),
{
    reveal_strlit("secs");
    reveal_strlit("nanos");
    let s = n / 1_000_000_000;
    let r = n % 1_000_000_000;
    vstd::arithmetic::div_mod::lemma_fundamental_div_mod(n, 1_000_000_000);
    assert(0 <= s <= u64::MAX && 0 <= r < 1_000_000_000) by (nonlinear_arith)
        requires
            0 <= n <= u64::MAX * 1_000_000_000 + 999_999_999,
            s == n / 1_000_000_000,
            r == n % 1_000_000_000,
    ;
    let pairs = dur_pair_jval(n)->Obj_0;
    assert(pairs.drop_first() =~= seq![("nanos"@, JVal::Nat(r))]);
    assert(pairs.drop_first().drop_first() =~= Seq::<(Seq<char>, JVal)>::empty());
    assert(decode_dur_pair_fold(pairs.drop_first().drop_first(), Some(s), Some(r))
        == Some((s, r)));
    assert(pairs.drop_first()[0].0 == "nanos"@);
    assert(pairs.drop_first()[0].1 == JVal::Nat(r));
    assert(!("nanos"@ == "secs"@));
    assert(0 <= r <= u32::MAX);
    assert(decode_dur_pair_fold(pairs.drop_first(), Some(s), None) == Some((s, r)));
    assert(pairs[0].0 == "secs"@);
    assert(pairs[0].1 == JVal::Nat(s));
    assert(decode_dur_pair_fold(pairs, None, None) == Some((s, r)));
}

proof fn lemma_samples_round_trip(s: Seq<int>)
    requires
        forall|i: int| 0 <= i < s.len()
            ==> 0 <= #[trigger] s[i] <= DurationSample::max_total_nanos(),
    ensures
        decode_samples(s.map_values(|n: int| dur_pair_jval(n))) == Some(s),
    decreases s.len(),
{
    let m = s.map_values(|n: int| dur_pair_jval(n));
    if s.len() == 0 {
        assert(m =~= Seq::<JVal>::empty());
        assert(Some(Seq::<int>::empty()) == Some(s)) by {
            assert(Seq::<int>::empty() =~= s);
        }
    } else {
        lemma_sample_round_trip(s[0]);
        assert(m[0] == dur_pair_jval(s[0]));
        assert(m.drop_first() =~= s.drop_first().map_values(|n: int| dur_pair_jval(n)));
        lemma_samples_round_trip(s.drop_first());
        assert(Seq::empty().push(s[0]) + s.drop_first() =~= s);
    }
}

proof fn lemma_strings_round_trip(c: Seq<Seq<char>>)
    ensures
        decode_strings(c.map_values(|x: Seq<char>| JVal::Str(x))) == Some(c),
    decreases c.len(),
{
    let m = c.map_values(|x: Seq<char>| JVal::Str(x));
    if c.len() == 0 {
        assert(m =~= Seq::<JVal>::empty());
        assert(Seq::<Seq<char>>::empty() =~= c);
    } else {
        assert(m[0] == JVal::Str(c[0]));
        assert(m.drop_first() =~= c.drop_first().map_values(|x: Seq<char>| JVal::Str(x)));
        lemma_strings_round_trip(c.drop_first());
        assert(Seq::empty().push(c[0]) + c.drop_first() =~= c);
    }
}

proof fn lemma_shape_row_round_trip(row: Seq<int>)
    requires
        forall|k: int| 0 <= k < row.len() ==> 0 <= #[trigger] row[k] <= usize::MAX,
    ensures
        decode_shape_row(row.map_values(|n: int| JVal::Nat(n))) == Some(row),
    decreases row.len(),
{
    let m = row.map_values(|n: int| JVal::Nat(n));
    if row.len() == 0 {
        assert(m =~= Seq::<JVal>::empty());
        assert(Seq::<int>::empty() =~= row);
    } else {
        assert(m[0] == JVal::Nat(row[0]));
        assert(m.drop_first() =~= row.drop_first().map_values(|n: int| JVal::Nat(n)));
        lemma_shape_row_round_trip(row.drop_first());
        assert(Seq::empty().push(row[0]) + row.drop_first() =~= row);
    }
}

proof fn lemma_shapes_round_trip(shapes: Seq<Seq<int>>)
    requires
        forall|i: int, k: int|
            0 <= i < shapes.len() && 0 <= k < shapes[i].len()
                ==> 0 <= #[trigger] shapes[i][k] <= usize::MAX,
    ensures
        decode_shapes(shapes_jval(shapes)->Arr_0) == Some(shapes),
    decreases shapes.len(),
{
    let m = shapes_jval(shapes)->Arr_0;
    if shapes.len() == 0 {
        assert(m =~= Seq::<JVal>::empty());
        assert(Seq::<Seq<int>>::empty() =~= shapes);
    } else {
        assert(m[0] == JVal::Arr(shapes[0].map_values(|n: int| JVal::Nat(n))));
        lemma_shape_row_round_trip(shapes[0]);
        assert(m.drop_first() =~= shapes_jval(shapes.drop_first())->Arr_0);
        assert(forall|i: int, k: int|
            0 <= i < shapes.drop_first().len() && 0 <= k < shapes.drop_first()[i].len()
                ==> 0 <= #[trigger] shapes.drop_first()[i][k] <= usize::MAX);
        lemma_shapes_round_trip(shapes.drop_first());
        assert(Seq::empty().push(shapes[0]) + shapes.drop_first() =~= shapes);
    }
}

proof fn lemma_sysinfo_round_trip(si: SystemInfoView)
    ensures
        decode_sysinfo_fold(sysinfo_jval(si)->Obj_0, None, None) == Some(si),
{
    reveal_strlit("cpus");
    reveal_strlit("gpus");
    let pairs = sysinfo_jval(si)->Obj_0;
    lemma_strings_round_trip(si.cpus);
    lemma_strings_round_trip(si.gpus);
    assert(pairs.drop_first() =~= seq![
        ("gpus"@, JVal::Arr(si.gpus.map_values(|g: Seq<char>| JVal::Str(g)))),
    ]);
    assert(pairs.drop_first().drop_first() =~= Seq::<(Seq<char>, JVal)>::empty());
    assert(decode_sysinfo_fold(pairs.drop_first().drop_first(), Some(si.cpus), Some(si.gpus))
        == Some(SystemInfoView { cpus: si.cpus, gpus: si.gpus }));
    assert(SystemInfoView { cpus: si.cpus, gpus: si.gpus } == si);
    assert(pairs.drop_first()[0].0 == "gpus"@);
    assert(pairs.drop_first()[0].1 == JVal::Arr(si.gpus.map_values(|g: Seq<char>| JVal::Str(g))));
    assert("gpus"@[0] == 'g' && "cpus"@[0] == 'c');
    assert(!("gpus"@ == "cpus"@));
    assert(decode_sysinfo_fold(pairs.drop_first(), Some(si.cpus), None) == Some(si));
    assert(pairs[0].0 == "cpus"@);
    assert(pairs[0].1 == JVal::Arr(si.cpus.map_values(|c: Seq<char>| JVal::Str(c))));
    assert(decode_sysinfo_fold(pairs, None, None) == Some(si));
}

proof fn lemma_fold_step(acc: RecordView, e: Seq<(Seq<char>, JVal)>, i: int)
    requires
        0 <= i < e.len(),
        decode_field(acc, e[i].0, e[i].1) is Some,
    ensures
        decode_fold(acc, e.subrange(i, e.len() as int)) == decode_fold(
            decode_field(acc, e[i].0, e[i].1)->Some_0,
            e.subrange(i + 1, e.len() as int),
        ),
{
    let rest = e.subrange(i, e.len() as int);
    assert(rest[0] == e[i]);
    assert(rest.drop_first() =~= e.subrange(i + 1, e.len() as int));
}

proof fn lemma_micros_round_trip(x: int)
    requires
        0 <= x <= u64::MAX * 1000,
        x % 1000 == 0,
    ensures
        decode_micros(JVal::Nat(x / 1000)) == Some(x),
{
    vstd::arithmetic::div_mod::lemma_fundamental_div_mod(x, 1000);
    assert(0 <= x / 1000 <= u64::MAX) by (nonlinear_arith)
        requires 0 <= x <= u64::MAX * 1000, x / 1000 == (x - x % 1000) / 1000, x % 1000 == 0;
}

/// A record survives the trip onto the wire and back: its statistics are
/// whole microseconds that fit the wire's integer, its samples and shape
/// dimensions are representable, and its timing method is the default one,
/// which the flat form does not carry.
pub open spec fn round_trippable(v: RecordView) -> bool {
    &&& v.results.raw.timing_method == TimingMethod::System
    &&& v.results.raw.samples.len() <= usize::MAX
    &&& forall|i: int|
        0 <= i < v.results.raw.samples.len()
            ==> 0 <= #[trigger] v.results.raw.samples[i] <= DurationSample::max_total_nanos()
    &&& 0 <= v.results.computed.mean <= u64::MAX * 1000 && v.results.computed.mean % 1000 == 0
    &&& 0 <= v.results.computed.median <= u64::MAX * 1000 && v.results.computed.median % 1000 == 0
    &&& 0 <= v.results.computed.variance <= u64::MAX * 1000 && v.results.computed.variance % 1000
        == 0
    &&& 0 <= v.results.computed.min <= u64::MAX * 1000 && v.results.computed.min % 1000 == 0
    &&& 0 <= v.results.computed.max <= u64::MAX * 1000 && v.results.computed.max % 1000 == 0
    &&& forall|i: int, k: int|
        0 <= i < v.results.shapes.len() && 0 <= k < v.results.shapes[i].len()
            ==> 0 <= #[trigger] v.results.shapes[i][k] <= usize::MAX
    &&& 0 <= v.results.timestamp <= u128::MAX
}

/// Decoding a flat form of a record gives the record back even when its
/// `numSamples` entry holds a stale count: the count is read, bounds-checked
/// and discarded, and the encoder regenerates it from the sample list. Every
/// other field is restored exactly. The one field the flat form does not
/// carry, the timing method, must already be the default.
#[verifier::rlimit(100)]
pub proof fn lemma_decode_ignores_sample_count(v: RecordView, c: int)
    requires
        round_trippable(v),
        0 <= c <= usize::MAX,
    ensures
        spec_decode(spec_encode(v).update(10, ("numSamples"@, JVal::Nat(c)))) == Some(v),
{
    reveal_strlit("backend");
    reveal_strlit("device");
    reveal_strlit("feature");
    reveal_strlit("gitHash");
    reveal_strlit("burnVersion");
    reveal_strlit("max");
    reveal_strlit("mean");
    reveal_strlit("median");
    reveal_strlit("min");
    reveal_strlit("name");
    reveal_strlit("numSamples");
    reveal_strlit("options");
    reveal_strlit("rawDurations");
    reveal_strlit("systemInfo");
    reveal_strlit("shapes");
    reveal_strlit("timestamp");
    reveal_strlit("variance");
    let e = spec_encode(v);
    let n = e.len() as int;
    assert(n == 17);
    let f = e.update(10, ("numSamples"@, JVal::Nat(c)));
    assert(f.len() == 17);
    assert(f.subrange(0, 17) =~= f);

    assert("backend"@.len() == 7 && "backend"@[0] == 'b');
    assert("device"@.len() == 6 && "device"@[0] == 'd');
    assert("feature"@.len() == 7 && "feature"@[0] == 'f');
    assert("gitHash"@.len() == 7 && "gitHash"@[0] == 'g');
    assert("burnVersion"@.len() == 11 && "burnVersion"@[0] == 'b');
    assert("max"@.len() == 3 && "max"@[0] == 'm' && "max"@[1] == 'a');
    assert("mean"@.len() == 4 && "mean"@[0] == 'm');
    assert("median"@.len() == 6 && "median"@[0] == 'm');
    assert("min"@.len() == 3 && "min"@[0] == 'm' && "min"@[1] == 'i');
    assert("name"@.len() == 4 && "name"@[0] == 'n');
    assert("numSamples"@.len() == 10 && "numSamples"@[0] == 'n');
    assert("options"@.len() == 7 && "options"@[0] == 'o');
    assert("rawDurations"@.len() == 12 && "rawDurations"@[0] == 'r');
    assert("systemInfo"@.len() == 10 && "systemInfo"@[0] == 's');
    assert("shapes"@.len() == 6 && "shapes"@[0] == 's' && "shapes"@[1] == 'h');
    assert("timestamp"@.len() == 9 && "timestamp"@[0] == 't');
    assert("variance"@.len() == 8 && "variance"@[0] == 'v');

    lemma_micros_round_trip(v.results.computed.max);
    lemma_micros_round_trip(v.results.computed.mean);
    lemma_micros_round_trip(v.results.computed.median);
    lemma_micros_round_trip(v.results.computed.min);
    lemma_micros_round_trip(v.results.computed.variance);
    lemma_samples_round_trip(v.results.raw.samples);
    lemma_sysinfo_round_trip(v.system_info);
    lemma_shapes_round_trip(v.results.shapes);

    assert(e[0] == ("backend"@, JVal::Str(v.backend)));
    assert(e[1] == ("device"@, JVal::Str(v.device)));
    assert(e[2] == ("feature"@, JVal::Str(v.feature)));
    assert(e[3] == ("gitHash"@, JVal::Str(v.results.git_hash)));
    assert(e[4] == ("burnVersion"@, JVal::Str(v.burn_version)));
    assert(e[5] == ("max"@, JVal::Nat(v.results.computed.max / 1000)));
    assert(e[6] == ("mean"@, JVal::Nat(v.results.computed.mean / 1000)));
    assert(e[7] == ("median"@, JVal::Nat(v.results.computed.median / 1000)));
    assert(e[8] == ("min"@, JVal::Nat(v.results.computed.min / 1000)));
    assert(e[9] == ("name"@, JVal::Str(v.results.name)));
    assert(e[10] == ("numSamples"@, JVal::Nat(v.results.raw.samples.len() as int)));
    assert(e[11] == (
        "options"@,
        match v.results.options {
            Some(s) => JVal::Str(s),
            None => JVal::Null,
        },
    ));
    assert(e[12] == (
        "rawDurations"@,
        JVal::Arr(v.results.raw.samples.map_values(|n: int| dur_pair_jval(n))),
    ));
    assert(e[13] == ("systemInfo"@, sysinfo_jval(v.system_info)));
    assert(e[14] == ("shapes"@, shapes_jval(v.results.shapes)));
    assert(e[15] == ("timestamp"@, JVal::Nat(v.results.timestamp)));
    assert(e[16] == ("variance"@, JVal::Nat(v.results.computed.variance / 1000)));
    assert(forall|i: int| 0 <= i < 17 && i != 10 ==> #[trigger] f[i] == e[i]);
    assert(f[10] == ("numSamples"@, JVal::Nat(c)));

    let a0 = empty_record_view();
    let a1 = decode_field(a0, f[0].0, f[0].1)->Some_0;
    lemma_fold_step(a0, f, 0);
    let a2 = decode_field(a1, f[1].0, f[1].1)->Some_0;
    lemma_fold_step(a1, f, 1);
    let a3 = decode_field(a2, f[2].0, f[2].1)->Some_0;
    lemma_fold_step(a2, f, 2);
    let a4 = decode_field(a3, f[3].0, f[3].1)->Some_0;
    lemma_fold_step(a3, f, 3);
    let a5 = decode_field(a4, f[4].0, f[4].1)->Some_0;
    lemma_fold_step(a4, f, 4);
    let a6 = decode_field(a5, f[5].0, f[5].1)->Some_0;
    lemma_fold_step(a5, f, 5);
    let a7 = decode_field(a6, f[6].0, f[6].1)->Some_0;
    lemma_fold_step(a6, f, 6);
    let a8 = decode_field(a7, f[7].0, f[7].1)->Some_0;
    lemma_fold_step(a7, f, 7);
    let a9 = decode_field(a8, f[8].0, f[8].1)->Some_0;
    lemma_fold_step(a8, f, 8);
    let a10 = decode_field(a9, f[9].0, f[9].1)->Some_0;
    lemma_fold_step(a9, f, 9);
    let a11 = decode_field(a10, f[10].0, f[10].1)->Some_0;
    lemma_fold_step(a10, f, 10);
    let a12 = decode_field(a11, f[11].0, f[11].1)->Some_0;
    lemma_fold_step(a11, f, 11);
    let a13 = decode_field(a12, f[12].0, f[12].1)->Some_0;
    lemma_fold_step(a12, f, 12);
    let a14 = decode_field(a13, f[13].0, f[13].1)->Some_0;
    lemma_fold_step(a13, f, 13);
    let a15 = decode_field(a14, f[14].0, f[14].1)->Some_0;
    lemma_fold_step(a14, f, 14);
    let a16 = decode_field(a15, f[15].0, f[15].1)->Some_0;
    lemma_fold_step(a15, f, 15);
    let a17 = decode_field(a16, f[16].0, f[16].1)->Some_0;
    lemma_fold_step(a16, f, 16);
    assert(f.subrange(17, 17) =~= Seq::<(Seq<char>, JVal)>::empty());
    assert(decode_fold(a17, f.subrange(17, 17)) == Some(a17));
    assert(a17 == v);
}

/// Decoding the flat form of a record gives the record back: every field is
/// restored exactly; `numSamples` is never stored internally, and the
/// encoder always regenerates it from the sample list. The one field the
/// flat form does not carry, the timing method, must already be the default.
pub proof fn lemma_round_trip(v: RecordView)
    requires
        round_trippable(v),
    ensures
        spec_decode(spec_encode(v)) == Some(v),
{
    let e = spec_encode(v);
    let count = v.results.raw.samples.len() as int;
    lemma_decode_ignores_sample_count(v, count);
    assert(e[10] == ("numSamples"@, JVal::Nat(count)));
    assert(e.update(10, ("numSamples"@, JVal::Nat(count))) =~= e);
}

} // verus!
