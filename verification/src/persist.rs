use vstd::prelude::*;
use crate::codec::{encode_record, spec_encode};
use crate::duration::DurationSample;
use crate::json::{JVal, JsonValue};
use crate::jsonio::{
    compact_text_of, pretty_text_of, render_compact, render_pretty, renderable, to_json_value,
};
use crate::record::{BenchmarkRecord, RecordView};

verus! {

broadcast use vstd::string::group_string_axioms,
    crate::duration::DurationSample::lemma_total_nanos_nonneg;

/// The character of one decimal digit.
pub open spec fn digit_char(d: int) -> char {
    if d == 0 {
        '0'
    } else if d == 1 {
        '1'
    } else if d == 2 {
        '2'
    } else if d == 3 {
        '3'
    } else if d == 4 {
        '4'
    } else if d == 5 {
        '5'
    } else if d == 6 {
        '6'
    } else if d == 7 {
        '7'
    } else if d == 8 {
        '8'
    } else {
        '9'
    }
}

/// The decimal digits of a non-negative number, most significant first.
pub open spec fn dec_digits(n: int) -> Seq<char>
    decreases n via dec_digits_decreases
{
    if n < 10 {
        seq![digit_char(n)]
    } else {
        dec_digits(n / 10).push(digit_char(n % 10))
    }
}

#[via_fn]
proof fn dec_digits_decreases(n: int) {
    assert(n >= 10 ==> 0 <= n / 10 < n) by (nonlinear_arith);
}

/// The name of the file one record is written to.
pub open spec fn file_name_of(name: Seq<char>, timestamp: int) -> Seq<char> {
    "bench_"@ + name + "_"@ + dec_digits(timestamp) + ".json"@
}

fn digit_str(d: u8) -> (r: &'static str)
    requires
        d < 10,
    ensures
        r@ == seq![digit_char(d as int)],
{
    if d == 0 {
        proof { reveal_strlit("0"); }
        let r = "0";
        proof { assert(r@ =~= seq![digit_char(d as int)]); }
        r
    } else if d == 1 {
        proof { reveal_strlit("1"); }
        let r = "1";
        proof { assert(r@ =~= seq![digit_char(d as int)]); }
        r
    } else if d == 2 {
        proof { reveal_strlit("2"); }
        let r = "2";
        proof { assert(r@ =~= seq![digit_char(d as int)]); }
        r
    } else if d == 3 {
        proof { reveal_strlit("3"); }
        let r = "3";
        proof { assert(r@ =~= seq![digit_char(d as int)]); }
        r
    } else if d == 4 {
        proof { reveal_strlit("4"); }
        let r = "4";
        proof { assert(r@ =~= seq![digit_char(d as int)]); }
        r
    } else if d == 5 {
        proof { reveal_strlit("5"); }
        let r = "5";
        proof { assert(r@ =~= seq![digit_char(d as int)]); }
        r
    } else if d == 6 {
        proof { reveal_strlit("6"); }
        let r = "6";
        proof { assert(r@ =~= seq![digit_char(d as int)]); }
        r
    } else if d == 7 {
        proof { reveal_strlit("7"); }
        let r = "7";
        proof { assert(r@ =~= seq![digit_char(d as int)]); }
        r
    } else if d == 8 {
        proof { reveal_strlit("8"); }
        let r = "8";
        proof { assert(r@ =~= seq![digit_char(d as int)]); }
        r
    } else {
        proof { reveal_strlit("9"); }
        let r = "9";
        proof { assert(r@ =~= seq![digit_char(d as int)]); }
        r
    }
}

spec fn rev_digit_chars(ds: Seq<u8>) -> Seq<char> {
    Seq::new(ds.len(), |i: int| digit_char(ds[ds.len() - 1 - i] as int))
}

proof fn lemma_rev_digit_push(ds: Seq<u8>, d: u8)
    ensures
        rev_digit_chars(ds.push(d)) == seq![digit_char(d as int)] + rev_digit_chars(ds),
{
    let lhs = rev_digit_chars(ds.push(d));
    let rhs = seq![digit_char(d as int)] + rev_digit_chars(ds);
    assert forall|i: int| 0 <= i < lhs.len() implies lhs[i] == rhs[i] by {
        let n = ds.len() as int;
        if i == 0 {
            assert(ds.push(d)[n] == d);
        } else {
            assert(ds.push(d)[n - i] == ds[n - i]);
        }
    }
    assert(lhs =~= rhs);
}

/// The decimal digits of a number, as text.
fn u128_digits(n: u128) -> (r: String)
    ensures
        r@ == dec_digits(n as int),
{
    let mut digs: Vec<u8> = Vec::new();
    let d0: u8 = (n % 10) as u8;
    proof {
        assert(n % 10 < 10) by (nonlinear_arith);
        assert(n >= 10 ==> 0 <= n as int / 10 < n) by (nonlinear_arith);
        assert(n < 10 ==> n as int % 10 == n) by (nonlinear_arith);
        lemma_rev_digit_push(Seq::empty(), d0);
        assert(rev_digit_chars(Seq::<u8>::empty()) =~= Seq::<char>::empty());
        assert(seq![digit_char(d0 as int)] + Seq::<char>::empty()
            =~= seq![digit_char(d0 as int)]);
    }
    digs.push(d0);
    let mut rem: u128 = n / 10;
    proof {
        assert(digs@ =~= Seq::<u8>::empty().push(d0));
        if n >= 10 {
            assert(dec_digits(n as int) == dec_digits(n as int / 10).push(digit_char(
                n as int % 10,
            )));
            assert(dec_digits(n as int) =~= dec_digits(rem as int) + rev_digit_chars(digs@));
        } else {
            assert(dec_digits(n as int) == seq![digit_char(n as int)]);
            assert(dec_digits(n as int) =~= rev_digit_chars(digs@));
        }
    }
    #[verifier::loop_isolation(false)]
    while rem > 0
        invariant
            forall|i: int| 0 <= i < digs@.len() ==> #[trigger] digs@[i] < 10,
            digs@.len() >= 1,
            rem == 0 ==> dec_digits(n as int) == rev_digit_chars(digs@),
            rem > 0 ==> dec_digits(n as int) == dec_digits(rem as int) + rev_digit_chars(digs@),
        decreases rem,
    {
        let d: u8 = (rem % 10) as u8;
        proof {
            assert(rem % 10 < 10) by (nonlinear_arith);
            assert(rem >= 10 ==> 0 <= rem as int / 10 < rem) by (nonlinear_arith);
            assert(rem < 10 ==> rem as int % 10 == rem) by (nonlinear_arith);
            lemma_rev_digit_push(digs@, d);
            if rem >= 10 {
                assert(dec_digits(rem as int) == dec_digits(rem as int / 10).push(digit_char(
                    rem as int % 10,
                )));
                assert(dec_digits(rem as int / 10) + (seq![digit_char(d as int)]
                    + rev_digit_chars(digs@)) =~= dec_digits(rem as int) + rev_digit_chars(digs@));
            } else {
                assert(dec_digits(rem as int) == seq![digit_char(rem as int)]);
                assert(seq![digit_char(d as int)] + rev_digit_chars(digs@)
                    =~= dec_digits(rem as int) + rev_digit_chars(digs@));
            }
        }
        digs.push(d);
        rem = rem / 10;
    }
    let count = digs.len();
    let mut out = String::new();
    let mut k: usize = 0;
    #[verifier::loop_isolation(false)]
    while k < count
        invariant
            k <= count,
            out@ == rev_digit_chars(digs@).subrange(0, k as int),
        decreases count - k,
    {
        let piece = digit_str(digs[count - 1 - k]);
        out.append(piece);
        proof {
            assert(rev_digit_chars(digs@)[k as int] == digit_char(
                digs@[count - 1 - k as int] as int,
            ));
            assert(out@ =~= rev_digit_chars(digs@).subrange(0, k as int + 1));
        }
        k = k + 1;
    }
    proof {
        assert(rev_digit_chars(digs@).subrange(0, count as int) =~= rev_digit_chars(digs@));
    }
    out
}

/// The deterministic file name for one record: the benchmark name and the
/// run's timestamp between fixed markers.
pub fn record_file_name(name: &String, timestamp: u128) -> (r: String)
    ensures
        r@ == file_name_of(name@, timestamp as int),
{
    let mut out = String::from_str("bench_");
    out.append(name.as_str());
    out.append("_");
    let digits = u128_digits(timestamp);
    out.append(digits.as_str());
    out.append(".json");
    proof {
        assert(out@ =~= file_name_of(name@, timestamp as int));
    }
    out
}

} // verus!

verus! {

/// A record small enough for the wire: its timestamp and statistics fit the
/// schema's integers, its samples and shape dimensions are representable.
pub open spec fn wire_ready(v: RecordView) -> bool {
    &&& 0 <= v.results.timestamp <= u64::MAX
    &&& 0 <= v.results.computed.mean && v.results.computed.mean / 1000 <= u64::MAX
    &&& 0 <= v.results.computed.median && v.results.computed.median / 1000 <= u64::MAX
    &&& 0 <= v.results.computed.variance && v.results.computed.variance / 1000 <= u64::MAX
    &&& 0 <= v.results.computed.min && v.results.computed.min / 1000 <= u64::MAX
    &&& 0 <= v.results.computed.max && v.results.computed.max / 1000 <= u64::MAX
    &&& v.results.raw.samples.len() <= u64::MAX
    &&& forall|i: int|
        0 <= i < v.results.raw.samples.len()
            ==> 0 <= #[trigger] v.results.raw.samples[i] <= DurationSample::max_total_nanos()
    &&& forall|i: int, k: int|
        #![trigger v.results.shapes[i][k]]
        0 <= i < v.results.shapes.len() && 0 <= k < v.results.shapes[i].len()
            ==> 0 <= v.results.shapes[i][k] <= u64::MAX
}

proof fn lemma_dur_pair_renderable(n: int)
    requires
        0 <= n <= DurationSample::max_total_nanos(),
    ensures
        renderable(crate::codec::dur_pair_jval(n)),
{
    reveal_strlit("secs");
    reveal_strlit("nanos");
    assert("secs"@.len() == 4 && "nanos"@.len() == 5);
    assert(0 <= n / 1_000_000_000 <= u64::MAX && 0 <= n % 1_000_000_000 <= u64::MAX)
        by (nonlinear_arith)
        requires 0 <= n <= u64::MAX * 1_000_000_000 + 999_999_999;
    let pairs = crate::codec::dur_pair_jval(n)->Obj_0;
    assert(renderable(pairs[0].1));
    assert(renderable(pairs[1].1));
}

proof fn lemma_sysinfo_renderable(si: crate::record::SystemInfoView)
    ensures
        renderable(crate::codec::sysinfo_jval(si)),
{
    reveal_strlit("cpus");
    reveal_strlit("gpus");
    assert("cpus"@[0] == 'c' && "gpus"@[0] == 'g');
    let pairs = crate::codec::sysinfo_jval(si)->Obj_0;
    let cs = si.cpus.map_values(|c: Seq<char>| JVal::Str(c));
    let gs = si.gpus.map_values(|g: Seq<char>| JVal::Str(g));
    assert(forall|j: int| 0 <= j < cs.len() ==> renderable(#[trigger] cs[j]));
    assert(forall|j: int| 0 <= j < gs.len() ==> renderable(#[trigger] gs[j]));
    assert(renderable(pairs[0].1));
    assert(renderable(pairs[1].1));
}

proof fn lemma_shapes_renderable(shapes: Seq<Seq<int>>)
    requires
        forall|i: int, k: int|
            #![trigger shapes[i][k]]
            0 <= i < shapes.len() && 0 <= k < shapes[i].len()
                ==> 0 <= shapes[i][k] <= u64::MAX,
    ensures
        renderable(crate::codec::shapes_jval(shapes)),
{
    let rows = crate::codec::shapes_jval(shapes)->Arr_0;
    assert forall|i: int| 0 <= i < rows.len() implies renderable(#[trigger] rows[i]) by {
        let row = shapes[i].map_values(|n: int| JVal::Nat(n));
        assert(rows[i] == JVal::Arr(row));
        assert forall|k: int| 0 <= k < row.len() implies renderable(#[trigger] row[k]) by {
            assert(row[k] == JVal::Nat(shapes[i][k]));
        }
    }
}

/// A wire-ready record encodes to a document that serde_json can print: all
/// its integers fit, and every object it contains has distinct keys.
proof fn lemma_wire_ready_renderable(v: RecordView)
    requires
        wire_ready(v),
    ensures
        renderable(JVal::Obj(spec_encode(v))),
{
    reveal_strlit("backend");
    reveal_strlit("device");
    reveal_strlit("feature");
    reveal_strlit("gitHash");
    reveal_strlit("burnVersion");
    reveal_strlit("max");
    reveal_strlit("mean");
    reveal_strlit("median");
    reveal_strlit("min");
    reveal_strlit("name");
    reveal_strlit("numSamples");
    reveal_strlit("options");
    reveal_strlit("rawDurations");
    reveal_strlit("systemInfo");
    reveal_strlit("shapes");
    reveal_strlit("timestamp");
    reveal_strlit("variance");
    assert("backend"@.len() == 7 && "backend"@[0] == 'b');
    assert("device"@.len() == 6 && "device"@[0] == 'd');
    assert("feature"@.len() == 7 && "feature"@[0] == 'f');
    assert("gitHash"@.len() == 7 && "gitHash"@[0] == 'g');
    assert("burnVersion"@.len() == 11 && "burnVersion"@[0] == 'b');
    assert("max"@.len() == 3 && "max"@[0] == 'm' && "max"@[1] == 'a');
    assert("mean"@.len() == 4 && "mean"@[0] == 'm');
    assert("median"@.len() == 6 && "median"@[0] == 'm');
    assert("min"@.len() == 3 && "min"@[0] == 'm' && "min"@[1] == 'i');
    assert("name"@.len() == 4 && "name"@[0] == 'n');
    assert("numSamples"@.len() == 10 && "numSamples"@[0] == 'n');
    assert("options"@.len() == 7 && "options"@[0] == 'o');
    assert("rawDurations"@.len() == 12 && "rawDurations"@[0] == 'r');
    assert("systemInfo"@.len() == 10 && "systemInfo"@[0] == 's');
    assert("shapes"@.len() == 6 && "shapes"@[0] == 's' && "shapes"@[1] == 'h');
    assert("timestamp"@.len() == 9 && "timestamp"@[0] == 't');
    assert("variance"@.len() == 8 && "variance"@[0] == 'v');
    let e = spec_encode(v);
    assert(e.len() == 17);
    lemma_sysinfo_renderable(v.system_info);
    lemma_shapes_renderable(v.results.shapes);
    let samples = v.results.raw.samples.map_values(|n: int| crate::codec::dur_pair_jval(n));
    assert forall|j: int| 0 <= j < samples.len() implies renderable(#[trigger] samples[j]) by {
        lemma_dur_pair_renderable(v.results.raw.samples[j]);
    }
    assert forall|i: int| 0 <= i < e.len() implies renderable((#[trigger] e[i]).1) by {
        if i == 11 {
            match v.results.options {
                Some(s) => {
                    assert(e[11].1 == JVal::Str(s));
                },
                None => {
                    assert(e[11].1 == JVal::Null);
                },
            }
        }
    }
    assert forall|i: int, k: int|
        #![trigger e[i].0, e[k].0]
        0 <= i < k < e.len() implies e[i].0 != e[k].0 by {}
}

/// Whether a record fits the wire: its timestamp and each statistic must fit
/// the flat schema's integer fields.
pub fn check_wire_ready(record: &BenchmarkRecord) -> (ok: bool)
    ensures
        ok == wire_ready(record@),
{
    let ghost v = record@;
    let n_samples = record.results.raw.durations.len();
    let mut si: usize = 0;
    #[verifier::loop_isolation(false)]
    while si < n_samples
        invariant
            si <= n_samples,
            forall|i: int|
                0 <= i < si ==> 0 <= #[trigger] v.results.raw.samples[i]
                    <= DurationSample::max_total_nanos(),
        decreases n_samples - si,
    {
        let d = record.results.raw.durations[si];
        proof {
            use_type_invariant(d);
            DurationSample::lemma_wf_bounds(d);
            assert(v.results.raw.samples[si as int] == d@);
        }
        si = si + 1;
    }
    let mut ok = record.results.timestamp <= u64::MAX as u128;
    ok = ok && record.results.computed.mean.as_micros() <= u64::MAX as u128;
    ok = ok && record.results.computed.median.as_micros() <= u64::MAX as u128;
    ok = ok && record.results.computed.variance.as_micros() <= u64::MAX as u128;
    ok = ok && record.results.computed.min.as_micros() <= u64::MAX as u128;
    ok = ok && record.results.computed.max.as_micros() <= u64::MAX as u128;
    ok = ok && record.results.raw.durations.len() as u128 <= u64::MAX as u128;
    let n_shapes = record.results.shapes.len();
    let mut i: usize = 0;
    let mut shapes_ok = true;
    #[verifier::loop_isolation(false)]
    while i < n_shapes
        invariant
            i <= n_shapes,
            shapes_ok == forall|a: int, k: int|
                #![trigger v.results.shapes[a][k]]
                0 <= a < i && 0 <= k < v.results.shapes[a].len()
                    ==> 0 <= v.results.shapes[a][k] <= u64::MAX,
        decreases n_shapes - i,
    {
        let row = &record.results.shapes[i];
        let n_row = row.len();
        let mut k: usize = 0;
        let mut row_ok = true;
        #[verifier::loop_isolation(false)]
        while k < n_row
            invariant
                k <= n_row,
                row_ok == forall|b: int|
                    0 <= b < k ==> 0 <= #[trigger] v.results.shapes[i as int][b] <= u64::MAX,
            decreases n_row - k,
        {
            proof {
                assert(v.results.shapes[i as int][k as int] == row@[k as int] as int);
            }
            row_ok = row_ok && (row[k] as u128 <= u64::MAX as u128);
            k = k + 1;
        }
        shapes_ok = shapes_ok && row_ok;
        i = i + 1;
    }
    ok && shapes_ok
}

/// The file one record is persisted as: its deterministic name, and its
/// pretty-printed flat JSON document.
pub fn prepare_record_file(record: &BenchmarkRecord) -> (r: (String, String))
    requires
        wire_ready(record@),
    ensures
        r.0@ == file_name_of(record@.results.name, record@.results.timestamp),
        r.1@ == pretty_text_of(JVal::Obj(spec_encode(record@))),
{
    let flat = encode_record(record);
    let doc = JsonValue::Obj(flat);
    proof {
        lemma_wire_ready_renderable(record@);
        assert(doc@->Obj_0 =~= spec_encode(record@));
        assert(doc@ == JVal::Obj(spec_encode(record@)));
    }
    let value = to_json_value(&doc);
    let text = render_pretty(&value);
    let name = record_file_name(&record.results.name, record.results.timestamp);
    (name, text)
}

/// One file per record, in order: the whole of what the persistence step
/// writes for a list of records.
pub fn prepare_records(records: &Vec<BenchmarkRecord>) -> (out: Vec<(String, String)>)
    requires
        forall|i: int| 0 <= i < records@.len() ==> wire_ready((#[trigger] records@[i])@),
    ensures
        out@.len() == records@.len(),
        forall|i: int|
            0 <= i < records@.len() ==> (#[trigger] out@[i]).0@ == file_name_of(
                records@[i]@.results.name,
                records@[i]@.results.timestamp,
            ) && out@[i].1@ == pretty_text_of(JVal::Obj(spec_encode(records@[i]@))),
{
    let n = records.len();
    let mut out: Vec<(String, String)> = Vec::new();
    let mut j: usize = 0;
    #[verifier::loop_isolation(false)]
    while j < n
        invariant
            j <= n,
            out@.len() == j,
            forall|i: int|
                0 <= i < j ==> (#[trigger] out@[i]).0@ == file_name_of(
                    records@[i]@.results.name,
                    records@[i]@.results.timestamp,
                ) && out@[i].1@ == pretty_text_of(JVal::Obj(spec_encode(records@[i]@))),
        decreases n - j,
    {
        let item = prepare_record_file(&records[j]);
        out.push(item);
        j = j + 1;
    }
    out
}

/// The JSON body of one upload request: the same flat document, compact.
pub fn upload_body(record: &BenchmarkRecord) -> (r: String)
    requires
        wire_ready(record@),
    ensures
        r@ == compact_text_of(JVal::Obj(spec_encode(record@))),
{
    let flat = encode_record(record);
    let doc = JsonValue::Obj(flat);
    proof {
        lemma_wire_ready_renderable(record@);
        assert(doc@->Obj_0 =~= spec_encode(record@));
        assert(doc@ == JVal::Obj(spec_encode(record@)));
    }
    let value = to_json_value(&doc);
    render_compact(&value)
}

/// One line of the run index: the path of a written record file, terminated
/// by a newline so that appended entries never run together.
pub fn index_line(path: &str) -> (r: String)
    ensures
        r@ == path@ + "\n"@,
{
    let mut out = String::from_str(path);
    out.append("\n");
    out
}

/// The authorization header of an upload: the token behind the bearer mark.
pub fn bearer_value(token: &str) -> (r: String)
    ensures
        r@ == "Bearer "@ + token@,
{
    let mut out = String::from_str("Bearer ");
    out.append(token);
    out
}

/// The user-agent header every upload carries.
pub fn user_agent_value() -> (r: &'static str)
    ensures
        r@ == "burnbench"@,
{
    "burnbench"
}

/// The accept header every upload carries.
pub fn accept_value() -> (r: &'static str)
    ensures
        r@ == "application/json"@,
{
    "application/json"
}

/// Whether an HTTP status code counts as a successful upload.
pub fn is_success_status(code: u16) -> (r: bool)
    ensures
        r == (200 <= code < 300),
{
    200 <= code && code < 300
}

} // verus!
