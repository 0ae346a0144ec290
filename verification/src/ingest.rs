//! Ingestion: splitting input records into fields and recognizing them.
//!
//! One record is one line of the input stream, split on commas.  A record is
//! either a control request (`!save,<path>`), a data sample (`<x>,<v1>,...`),
//! or noise that is silently discarded.

use vstd::prelude::*;
use crate::fixed::{parse_fixed, parse_fixed_spec, lemma_parse_val_in_range, COORD_LIMIT};
use crate::grid::in_range;

verus! {

/// The index of the first occurrence of `b` in `s`, or `s.len()` if absent.
pub open spec fn find_byte(s: Seq<u8>, b: u8) -> int
    decreases s.len(),
{
    if s.len() == 0 {
        0
    } else if s[0] == b {
        0
    } else {
        1 + find_byte(s.skip(1), b)
    }
}

/// `find_byte` returns the first index holding `b`, or the length when `b`
/// does not occur.
pub proof fn lemma_find_byte(s: Seq<u8>, b: u8)
    ensures
        0 <= find_byte(s, b) <= s.len(),
        find_byte(s, b) < s.len() ==> s[find_byte(s, b)] == b,
        forall|j: int| 0 <= j < find_byte(s, b) ==> s[j] != b,
    decreases s.len(),
{
    if s.len() == 0 {
    } else if s[0] == b {
    } else {
        lemma_find_byte(s.skip(1), b);
        assert forall|j: int| 0 <= j < find_byte(s, b) implies s[j] != b by {
            if j > 0 {
                assert(s.skip(1)[j - 1] == s[j]);
            }
        }
    }
}

/// Scans `s` from index `from` for the first occurrence of `b`.
pub fn scan_byte(s: &Vec<u8>, from: usize, b: u8) -> (r: usize)
    requires
        from <= s.len(),
    ensures
        from <= r <= s.len(),
        find_byte(s@.skip(from as int), b) == r - from,
        r < s.len() ==> s[r as int] == b,
        forall|j: int| from <= j < r ==> s[j] != b,
{
    let n = s.len();
    let mut j: usize = from;
    while j < n
        invariant
            from <= j <= n,
            forall|k: int| from <= k < j ==> s[k] != b,
        decreases n - j,
    {
        if s[j] == b {
            proof {
                lemma_scan_result(s@, from as int, b, j as int);
            }
            return j;
        }
        j += 1;
    }
    proof {
        lemma_scan_result(s@, from as int, b, n as int);
    }
    n
}

/// The first-occurrence characterization pins `find_byte` down: if nothing
/// before `r` is `b`, and `r` is either an occurrence or the end, then
/// `find_byte` of the tail starting at `from` is exactly `r - from`.
proof fn lemma_scan_result(s: Seq<u8>, from: int, b: u8, r: int)
    requires
        0 <= from <= r <= s.len(),
        r < s.len() ==> s[r] == b,
        forall|j: int| from <= j < r ==> s[j] != b,
    ensures
        find_byte(s.skip(from), b) == r - from,
{
    let t = s.skip(from);
    lemma_find_byte(t, b);
    let f = find_byte(t, b);
    assert(forall|k: int| 0 <= k < t.len() ==> t[k] == s[from + k]);
    if f < r - from {
        assert(t[f] == b);
        assert(s[from + f] != b);
    }
    if f > r - from {
        assert(r < s.len());
        assert(t[r - from] == b);
        assert(t[r - from] != b);
    }
}

/// The fields of a record: the text split at every comma.  A text without
/// commas is one field; each comma ends a field and starts the next, so
/// `n` commas give `n + 1` fields, some possibly empty.
pub open spec fn split_at_commas(s: Seq<u8>) -> Seq<Seq<u8>>
    decreases s.len()
        via split_at_commas_decreases
{
    let d = find_byte(s, 44);
    if d == s.len() {
        seq![s]
    } else {
        seq![s.take(d)] + split_at_commas(s.skip(d + 1))
    }
}

#[via_fn]
proof fn split_at_commas_decreases(s: Seq<u8>) {
    lemma_find_byte(s, 44);
}

/// An independent copy of `v[from .. to]`.
pub fn copy_range(v: &Vec<u8>, from: usize, to: usize) -> (r: Vec<u8>)
    requires
        from <= to <= v.len(),
    ensures
        r@ == v@.subrange(from as int, to as int),
{
    let mut r: Vec<u8> = Vec::new();
    let mut j: usize = from;
    while j < to
        invariant
            from <= j <= to,
            r@ == v@.subrange(from as int, j as int),
        decreases to - j,
    {
        r.push(v[j]);
        proof {
            assert(r@ =~= v@.subrange(from as int, j as int + 1));
        }
        j += 1;
    }
    r
}

/// Splits one input line into its comma-separated fields.
pub fn split_fields(line: &Vec<u8>) -> (fields: Vec<Vec<u8>>)
    ensures
        fields.deep_view() == split_at_commas(line@),
{
    let ghost s = line@;
    let n = line.len();
    let mut fields: Vec<Vec<u8>> = Vec::new();
    let mut p: usize = 0;
    proof {
        assert(s.skip(0) =~= s);
        assert(fields.deep_view() + split_at_commas(s) =~= split_at_commas(s));
    }
    loop
        invariant
            p <= n,
            n == s.len(),
            fields.deep_view() + split_at_commas(s.skip(p as int)) == split_at_commas(s),
        decreases n - p,
    {
        let d = scan_byte(line, p, 44);
        let field = copy_range(line, p, d);
        proof {
            lemma_find_byte(s.skip(p as int), 44);
            assert(s.skip(p as int).take(d - p) =~= s.subrange(p as int, d as int));
            assert(field.deep_view() == field@);
        }
        let ghost pre = fields.deep_view();
        let ghost fv = field@;
        if d == n {
            proof {
                assert(s.skip(p as int).take(d - p) =~= s.skip(p as int));
                assert(split_at_commas(s.skip(p as int)) == seq![s.skip(p as int)]);
            }
            fields.push(field);
            proof {
                assert(fields.deep_view() =~= pre.push(fv));
                assert(pre.push(fv) =~= pre + seq![fv]);
                assert(fields.deep_view() =~= split_at_commas(s));
            }
            return fields;
        }
        proof {
            assert(s.skip(p as int).skip(d - p + 1) =~= s.skip(d as int + 1));
            assert(split_at_commas(s.skip(p as int)) == seq![s.subrange(p as int, d as int)]
                + split_at_commas(s.skip(d as int + 1)));
        }
        fields.push(field);
        proof {
            assert(fields.deep_view() =~= pre.push(fv));
            assert(pre.push(fv) + split_at_commas(s.skip(d as int + 1))
                =~= pre + (seq![fv] + split_at_commas(s.skip(d as int + 1))));
            assert(fields.deep_view() + split_at_commas(s.skip(d as int + 1))
                =~= split_at_commas(s));
        }
        p = d + 1;
    }
}

/// An out-of-band control request recognized in the input stream.
pub enum Command {
    /// Save the current frame to the file at this path.
    Save(Vec<u8>),
}

/// One parsed data record: an x value and one value per series.
pub struct Sample {
    pub x: i64,
    pub values: Vec<i64>,
}

impl Sample {
    /// All coordinates of the sample are within the supported data range.
    pub open spec fn wf(&self) -> bool {
        &&& in_range(self.x as int)
        &&& forall|i: int| 0 <= i < self.values@.len() ==> in_range(#[trigger] self.values@[i] as int)
    }

    /// Checks `wf` at run time, for callers outside verified code.
    pub fn check(&self) -> (r: bool)
        ensures
            r == self.wf(),
    {
        if self.x < -COORD_LIMIT || self.x > COORD_LIMIT {
            return false;
        }
        let n = self.values.len();
        let mut i: usize = 0;
        while i < n
            invariant
                i <= n,
                forall|j: int| 0 <= j < i ==> in_range(#[trigger] self.values@[j] as int),
            decreases n - i,
        {
            let v = self.values[i];
            if v < -COORD_LIMIT || v > COORD_LIMIT {
                return false;
            }
            i += 1;
        }
        true
    }
}

/// The control tag `!save`, as bytes.
pub open spec fn save_tag() -> Seq<u8> {
    seq![33u8, 115u8, 97u8, 118u8, 101u8]
}

/// Whether a field list is a save request: exactly two fields, the first
/// being the `!save` tag; the second is the destination path.
pub open spec fn is_save_line(fields: Seq<Seq<u8>>) -> bool {
    fields.len() == 2 && fields[0] == save_tag()
}

/// Whether this field holds exactly the `!save` tag.
fn is_save_tag(v: &Vec<u8>) -> (r: bool)
    ensures
        r == (v@ == save_tag()),
{
    if v.len() == 5 && v[0] == 33 && v[1] == 115 && v[2] == 97 && v[3] == 118 && v[4] == 101 {
        proof {
            assert(v@ =~= save_tag());
        }
        true
    } else {
        proof {
            if v@.len() == 5 {
                assert(v@ != save_tag());
            }
        }
        false
    }
}

/// Recognizes the control syntax `!save,<path>`: exactly two fields with
/// the `!save` tag first give a save command carrying the path; anything
/// else gives nothing.
pub fn handle_save_command(fields: &Vec<Vec<u8>>) -> (r: Option<Command>)
    ensures
        is_save_line(fields.deep_view()) ==> (r matches Some(c) && c matches Command::Save(
            path,
        ) && path@ == fields.deep_view()[1]),
        !is_save_line(fields.deep_view()) ==> r is None,
{
    if fields.len() == 2 && is_save_tag(&fields[0]) {
        let path = copy_range(&fields[1], 0, fields[1].len());
        proof {
            assert(fields.deep_view()[0] == fields@[0]@);
            assert(path@ =~= fields.deep_view()[1]);
        }
        Some(Command::Save(path))
    } else {
        proof {
            if fields@.len() == 2 {
                assert(fields.deep_view()[0] == fields@[0]@);
            }
        }
        None
    }
}

/// The series values of a data record: every field after the first that
/// parses as a number, in order; fields that do not parse are dropped,
/// which shifts the series index of everything after them.
pub open spec fn collect_values(fields: Seq<Seq<u8>>) -> Seq<i64>
    decreases fields.len(),
{
    if fields.len() == 0 {
        Seq::empty()
    } else {
        match parse_fixed_spec(fields[0]) {
            Some(v) => seq![v] + collect_values(fields.skip(1)),
            None => collect_values(fields.skip(1)),
        }
    }
}

/// Every collected value is within the supported data range.
pub proof fn lemma_collect_values_in_range(fields: Seq<Seq<u8>>)
    ensures
        forall|i: int|
            0 <= i < collect_values(fields).len() ==> in_range(
                #[trigger] collect_values(fields)[i] as int,
            ),
    decreases fields.len(),
{
    if fields.len() > 0 {
        lemma_collect_values_in_range(fields.skip(1));
        lemma_parse_val_in_range(fields[0]);
        let rest = collect_values(fields.skip(1));
        match parse_fixed_spec(fields[0]) {
            Some(v) => {
                assert forall|i: int|
                    0 <= i < collect_values(fields).len() implies in_range(
                    #[trigger] collect_values(fields)[i] as int,
                ) by {
                    if i > 0 {
                        assert(collect_values(fields)[i] == rest[i - 1]);
                        assert(in_range(rest[i - 1] as int));
                    }
                }
            },
            None => {},
        }
    }
}

/// What a field list yields as a data record: nothing when there are fewer
/// than two fields or the first does not parse; otherwise the x value and
/// the parsed remainder.
pub open spec fn sample_of_fields(fields: Seq<Seq<u8>>) -> Option<(i64, Seq<i64>)> {
    if fields.len() < 2 {
        None
    } else {
        match parse_fixed_spec(fields[0]) {
            Some(x) => Some((x, collect_values(fields.skip(1)))),
            None => None,
        }
    }
}

/// Tries a field list as a data record, exactly as `sample_of_fields`
/// says: with fewer than two fields, or an unparsable first field, the
/// whole record is discarded; later unparsable fields are dropped one by
/// one.
pub fn handle_line_plot(fields: &Vec<Vec<u8>>) -> (r: Option<Sample>)
    ensures
        sample_of_fields(fields.deep_view()) matches Some(sv) ==> (r matches Some(smp)
            && smp.x == sv.0 && smp.values@ == sv.1 && smp.wf()),
        sample_of_fields(fields.deep_view()) is None ==> r is None,
{
    let ghost fd = fields.deep_view();
    let n = fields.len();
    proof {
        assert(fd.len() == n);
    }
    if n < 2 {
        return None;
    }
    proof {
        assert(fd[0] == fields@[0]@);
        lemma_parse_val_in_range(fd[0]);
    }
    let x = match parse_fixed(&fields[0]) {
        Some(x) => x,
        None => {
            return None;
        },
    };
    let mut values: Vec<i64> = Vec::new();
    let mut i: usize = 1;
    while i < n
        invariant
            1 <= i <= n,
            values@ + collect_values(fd.skip(i as int)) == collect_values(fd.skip(1)),
            forall|j: int| 0 <= j < values@.len() ==> in_range(#[trigger] values@[j] as int),
        decreases n - i,
    {
        proof {
            assert(fd.skip(i as int)[0] == fd[i as int]);
            assert(fd[i as int] == fields@[i as int]@);
            assert(fd.skip(i as int).skip(1) =~= fd.skip(i as int + 1));
            lemma_parse_val_in_range(fd[i as int]);
        }
        match parse_fixed(&fields[i]) {
            Some(v) => {
                proof {
                    assert(values@.push(v) + collect_values(fd.skip(i as int + 1)) =~= values@
                        + (seq![v] + collect_values(fd.skip(i as int + 1))));
                }
                values.push(v);
            },
            None => {},
        }
        i += 1;
    }
    proof {
        assert(fd.skip(n as int) =~= Seq::<Seq<u8>>::empty());
        assert(collect_values(fd.skip(n as int)) =~= Seq::<i64>::empty());
        assert(values@ =~= collect_values(fd.skip(1)));
    }
    Some(Sample { x, values })
}

/// What one input line amounts to.
pub enum Record {
    /// A recognized control request.
    Control(Command),
    /// A recognized data record.
    Data(Sample),
    /// Noise: silently discarded.
    Ignored,
}

/// Parses one input line: splits it at commas, tries the control syntax
/// first, then the data syntax, and discards what matches neither.
pub fn parse_record(line: &Vec<u8>) -> (r: Record)
    ensures
        ({
            let fd = split_at_commas(line@);
            &&& is_save_line(fd) ==> (r matches Record::Control(c) && c matches Command::Save(
                path,
            ) && path@ == fd[1])
            &&& !is_save_line(fd) ==> match sample_of_fields(fd) {
                Some(sv) => r matches Record::Data(smp) && smp.x == sv.0 && smp.values@ == sv.1
                    && smp.wf(),
                None => r is Ignored,
            }
        }),
{
    let fields = split_fields(line);
    match handle_save_command(&fields) {
        Some(c) => Record::Control(c),
        None => match handle_line_plot(&fields) {
            Some(smp) => Record::Data(smp),
            None => Record::Ignored,
        },
    }
}

} // verus!
