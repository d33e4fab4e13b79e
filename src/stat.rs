//! Parsing the kernel's cumulative CPU counter table (`/proc/stat` text).
use vstd::prelude::*;
use crate::counters::NUM_FIELDS;

verus! {

/// Why the counter text could not be read.
#[derive(Debug, Clone, Copy, PartialEq, Eq, Structural)]
pub enum StatError {
    /// A field after the label is not an unsigned decimal number that fits in a `u64`.
    BadNumber,
    /// A line has fewer than ten fields after its label.
    MissingFields,
}

pub const NEWLINE: u8 = 10;

pub open spec fn is_space(b: u8) -> bool {
    b == 32 || b == 9 || b == 11 || b == 12 || b == 13
}

pub open spec fn is_digit(b: u8) -> bool {
    48 <= b <= 57
}

/// Finished lines and the line in progress after reading `s`.
pub open spec fn line_split(s: Seq<u8>) -> (Seq<Seq<u8>>, Seq<u8>)
    decreases s.len(),
{
    if s.len() == 0 {
        (Seq::empty(), Seq::empty())
    } else {
        let (done, cur) = line_split(s.drop_last());
        if s.last() == NEWLINE {
            (done.push(cur), Seq::empty())
        } else {
            (done, cur.push(s.last()))
        }
    }
}

/// The lines of `s`, split at each newline (the last one may be empty).
pub open spec fn lines_of(s: Seq<u8>) -> Seq<Seq<u8>> {
    line_split(s).0.push(line_split(s).1)
}

/// Finished words and the word in progress after reading `s`.
pub open spec fn word_split(s: Seq<u8>) -> (Seq<Seq<u8>>, Seq<u8>)
    decreases s.len(),
{
    if s.len() == 0 {
        (Seq::empty(), Seq::empty())
    } else {
        let (done, cur) = word_split(s.drop_last());
        if !is_space(s.last()) {
            (done, cur.push(s.last()))
        } else if cur.len() > 0 {
            (done.push(cur), Seq::empty())
        } else {
            (done, cur)
        }
    }
}

/// The maximal runs of non-space bytes of `s`, in order.
pub open spec fn words_of(s: Seq<u8>) -> Seq<Seq<u8>> {
    if word_split(s).1.len() > 0 {
        word_split(s).0.push(word_split(s).1)
    } else {
        word_split(s).0
    }
}

/// The number that the decimal digits `w` denote.
pub open spec fn value_of(w: Seq<u8>) -> int
    decreases w.len(),
{
    if w.len() == 0 {
        0
    } else {
        value_of(w.drop_last()) * 10 + (w.last() - 48)
    }
}

pub open spec fn all_digits(w: Seq<u8>) -> bool {
    forall|i: int| 0 <= i < w.len() ==> is_digit(#[trigger] w[i])
}

/// `w` is a decimal number that fits in a `u64`.
pub open spec fn is_number(w: Seq<u8>) -> bool {
    w.len() > 0 && all_digits(w) && value_of(w) <= u64::MAX
}

/// One counter line: a label, then at least ten numbers, of which the first ten count.
pub open spec fn line_outcome(line: Seq<u8>) -> Result<Seq<u64>, StatError> {
    let ws = words_of(line);
    if exists|i: int| 1 <= i < ws.len() && !is_number(#[trigger] ws[i]) {
        Err(StatError::BadNumber)
    } else if ws.len() < NUM_FIELDS + 1 {
        Err(StatError::MissingFields)
    } else {
        Ok(Seq::new(NUM_FIELDS as nat, |i: int| value_of(ws[i + 1]) as u64))
    }
}

/// The line starts with the per-core label prefix `cpu`.
pub open spec fn starts_cpu(line: Seq<u8>) -> bool {
    line.len() >= 3 && line[0] == 99 && line[1] == 112 && line[2] == 117
}

/// Number of consecutive lines from index `from` on that start with `cpu`.
pub open spec fn cpu_run(lines: Seq<Seq<u8>>, from: int) -> nat
    decreases lines.len() - from,
{
    if 0 <= from < lines.len() && starts_cpu(lines[from]) {
        1 + cpu_run(lines, from + 1)
    } else {
        0
    }
}

proof fn lemma_value_nonneg(w: Seq<u8>)
    requires
        all_digits(w),
    ensures
        value_of(w) >= 0,
    decreases w.len(),
{
    if w.len() > 0 {
        lemma_value_nonneg(w.drop_last());
    }
}

proof fn lemma_value_prefix(w: Seq<u8>, k: int)
    requires
        all_digits(w),
        0 <= k <= w.len(),
    ensures
        value_of(w.take(k)) <= value_of(w),
    decreases w.len(),
{
    if k == w.len() {
        assert(w.take(k) =~= w);
    } else {
        assert(w.drop_last().take(k) =~= w.take(k));
        lemma_value_prefix(w.drop_last(), k);
        lemma_value_nonneg(w.drop_last());
    }
}

/// The number that `w` denotes, if it is a decimal number that fits in a `u64`.
pub fn parse_number(w: &[u8]) -> (r: Option<u64>)
    ensures
        match r {
            Some(v) => is_number(w@) && v == value_of(w@),
            None => !is_number(w@),
        },
{
    if w.len() == 0 {
        return None;
    }
    let mut v: u64 = 0;
    let mut i: usize = 0;
    while i < w.len()
        invariant
            i <= w@.len(),
            v == value_of(w@.take(i as int)),
            all_digits(w@.take(i as int)),
        decreases w@.len() - i,
    {
        assert(w@.take(i as int + 1).drop_last() =~= w@.take(i as int));
        let b = w[i];
        if b < 48 || b > 57 {
            return None;
        }
        let d = (b - 48) as u64;
        if v > (u64::MAX - d) / 10 {
            proof {
                assert(all_digits(w@.take(i as int + 1)));
                if all_digits(w@) {
                    lemma_value_prefix(w@, i as int + 1);
                }
            }
            return None;
        }
        v = v * 10 + d;
        i = i + 1;
        assert(all_digits(w@.take(i as int)));
    }
    assert(w@.take(i as int) =~= w@);
    Some(v)
}

/// Splits `s` into its maximal runs of non-space bytes.
fn split_words(s: &[u8]) -> (r: Vec<Vec<u8>>)
    ensures
        r.deep_view() == words_of(s@),
{
    let mut done: Vec<Vec<u8>> = Vec::new();
    let mut cur: Vec<u8> = Vec::new();
    let mut i: usize = 0;
    while i < s.len()
        invariant
            i <= s@.len(),
            (done.deep_view(), cur@) == word_split(s@.take(i as int)),
        decreases s@.len() - i,
    {
        assert(s@.take(i as int + 1).drop_last() =~= s@.take(i as int));
        let b = s[i];
        if !(b == 32 || b == 9 || b == 11 || b == 12 || b == 13) {
            cur.push(b);
        } else if cur.len() > 0 {
            let ghost d0 = done.deep_view();
            let ghost c0 = cur@;
            assert(cur.deep_view() =~= cur@);
            done.push(cur);
            assert(done.deep_view() =~= d0.push(c0));
            cur = Vec::new();
        }
        i = i + 1;
    }
    assert(s@.take(i as int) =~= s@);
    if cur.len() > 0 {
        let ghost d0 = done.deep_view();
        let ghost c0 = cur@;
        assert(cur.deep_view() =~= cur@);
        done.push(cur);
        assert(done.deep_view() =~= d0.push(c0));
    }
    done
}

/// Splits `s` at each newline.
fn split_lines(s: &[u8]) -> (r: Vec<Vec<u8>>)
    ensures
        r.deep_view() == lines_of(s@),
{
    let mut done: Vec<Vec<u8>> = Vec::new();
    let mut cur: Vec<u8> = Vec::new();
    let mut i: usize = 0;
    while i < s.len()
        invariant
            i <= s@.len(),
            (done.deep_view(), cur@) == line_split(s@.take(i as int)),
        decreases s@.len() - i,
    {
        assert(s@.take(i as int + 1).drop_last() =~= s@.take(i as int));
        let b = s[i];
        if b == NEWLINE {
            let ghost d0 = done.deep_view();
            let ghost c0 = cur@;
            assert(cur.deep_view() =~= cur@);
            done.push(cur);
            assert(done.deep_view() =~= d0.push(c0));
            cur = Vec::new();
        } else {
            cur.push(b);
        }
        i = i + 1;
    }
    assert(s@.take(i as int) =~= s@);
    let ghost d0 = done.deep_view();
    let ghost c0 = cur@;
    assert(cur.deep_view() =~= cur@);
    done.push(cur);
    assert(done.deep_view() =~= d0.push(c0));
    done
}

/// Reads one counter line: skips the label, then takes the first ten of at
/// least ten numbers.
pub fn parse_counter_line(line: &[u8]) -> (r: Result<Vec<u64>, StatError>)
    ensures
        match r {
            Ok(v) => line_outcome(line@) == Ok::<Seq<u64>, StatError>(v@),
            Err(e) => line_outcome(line@) == Err::<Seq<u64>, StatError>(e),
        },
{
    let words = split_words(line);
    let ghost ws = words_of(line@);
    let mut values: Vec<u64> = Vec::new();
    let mut i: usize = 1;
    while i < words.len()
        invariant
            ws == words_of(line@),
            words.deep_view() == ws,
            1 <= i,
            i <= ws.len() || ws.len() == 0,
            values@.len() == if i <= 1 { 0 } else { i - 1 },
            forall|j: int| 1 <= j < i && j < ws.len() ==> is_number(#[trigger] ws[j]),
            forall|j: int| 0 <= j < values@.len() ==> values@[j] == value_of(#[trigger] ws[j + 1]),
        decreases words@.len() - i,
    {
        assert(words[i as int]@ =~= ws[i as int]) by {
            assert(words.deep_view()[i as int] == words@[i as int].deep_view());
        }
        match parse_number(words[i].as_slice()) {
            Some(v) => {
                values.push(v);
            },
            None => {
                assert(1 <= i < ws.len());
                assert(!is_number(ws[i as int]));
                assert(exists|jj: int| 1 <= jj < ws.len() && !is_number(#[trigger] ws[jj]));
                assert(line_outcome(line@) == Err::<Seq<u64>, StatError>(StatError::BadNumber));
                return Err(StatError::BadNumber);
            },
        }
        i = i + 1;
    }
    if words.len() < NUM_FIELDS + 1 {
        return Err(StatError::MissingFields);
    }
    let mut out: Vec<u64> = Vec::new();
    let mut k: usize = 0;
    while k < NUM_FIELDS
        invariant
            k <= NUM_FIELDS,
            values@.len() >= NUM_FIELDS,
            out@ == values@.take(k as int),
        decreases NUM_FIELDS - k,
    {
        out.push(values[k]);
        k = k + 1;
        assert(out@ =~= values@.take(k as int));
    }
    assert(out@ =~= Seq::new(NUM_FIELDS as nat, |j: int| value_of(ws[j + 1]) as u64));
    Ok(out)
}

fn starts_with_cpu(line: &[u8]) -> (r: bool)
    ensures
        r == starts_cpu(line@),
{
    line.len() >= 3 && line[0] == 99 && line[1] == 112 && line[2] == 117
}

/// The outcome of reading the whole counter text: the first line is the
/// aggregate, the lines after it that start with `cpu` are the cores, in order;
/// the first of these lines that cannot be read gives the error.
pub open spec fn stat_outcome_ok(text: Seq<u8>, cpu: Seq<u64>, cores: Seq<Seq<u64>>) -> bool {
    let lines = lines_of(text);
    let m = cpu_run(lines, 1);
    &&& line_outcome(lines[0]) == Ok::<Seq<u64>, StatError>(cpu)
    &&& cores.len() == m
    &&& forall|c: int| 0 <= c < m ==> line_outcome(lines[c + 1]) == Ok::<Seq<u64>, StatError>(#[trigger] cores[c])
}

pub open spec fn stat_outcome_err(text: Seq<u8>, e: StatError) -> bool {
    let lines = lines_of(text);
    let m = cpu_run(lines, 1);
    exists|j: int|
        0 <= j <= m && line_outcome(#[trigger] lines[j]) == Err::<Seq<u64>, StatError>(e) && forall|jj: int|
            0 <= jj < j ==> (#[trigger] line_outcome(lines[jj])) is Ok
}

/// Reads one snapshot's counters from the text of the kernel's counter table:
/// the aggregate vector and one vector per core.
pub fn get_cpu_times(text: &[u8]) -> (r: Result<(Vec<u64>, Vec<Vec<u64>>), StatError>)
    ensures
        match r {
            Ok((cpu, cores)) => stat_outcome_ok(text@, cpu@, cores.deep_view()),
            Err(e) => stat_outcome_err(text@, e),
        },
{
    let lines = split_lines(text);
    let ghost ls = lines_of(text@);
    assert(lines@.len() == ls.len() && ls.len() > 0);
    assert(lines[0]@ =~= ls[0]) by {
        assert(lines.deep_view()[0] == lines@[0].deep_view());
    }
    let cpu = match parse_counter_line(lines[0].as_slice()) {
        Ok(v) => v,
        Err(e) => {
            assert(stat_outcome_err(text@, e)) by {
                assert(line_outcome(ls[0]) == Err::<Seq<u64>, StatError>(e));
            }
            return Err(e);
        },
    };
    let mut cores: Vec<Vec<u64>> = Vec::new();
    let mut j: usize = 1;
    while j < lines.len() && starts_with_cpu(lines[j].as_slice())
        invariant
            ls == lines_of(text@),
            lines.deep_view() == ls,
            1 <= j <= ls.len(),
            cpu_run(ls, 1) == (j - 1) + cpu_run(ls, j as int),
            line_outcome(ls[0]) == Ok::<Seq<u64>, StatError>(cpu@),
            cores@.len() == j - 1,
            forall|c: int| 0 <= c < j - 1 ==> line_outcome(ls[c + 1]) == Ok::<Seq<u64>, StatError>(#[trigger] cores@[c]@),
        decreases ls.len() - j,
    {
        assert(lines[j as int]@ =~= ls[j as int]) by {
            assert(lines.deep_view()[j as int] == lines@[j as int].deep_view());
        }
        assert(starts_cpu(ls[j as int]));
        match parse_counter_line(lines[j].as_slice()) {
            Ok(v) => {
                cores.push(v);
            },
            Err(e) => {
                assert(stat_outcome_err(text@, e)) by {
                    assert(cpu_run(ls, j as int) >= 1);
                    assert forall|jj: int| 0 <= jj < j implies (#[trigger] line_outcome(ls[jj])) is Ok by {
                        if jj > 0 {
                            assert(line_outcome(ls[(jj - 1) + 1]) == Ok::<Seq<u64>, StatError>(cores@[jj - 1]@));
                        }
                    }
                    assert(line_outcome(ls[j as int]) == Err::<Seq<u64>, StatError>(e));
                }
                return Err(e);
            },
        }
        j = j + 1;
    }
    proof {
        if j < ls.len() {
            assert(lines[j as int]@ =~= ls[j as int]) by {
                assert(lines.deep_view()[j as int] == lines@[j as int].deep_view());
            }
            assert(!starts_cpu(ls[j as int]));
        }
        assert(cpu_run(ls, j as int) == 0);
        assert forall|c: int| 0 <= c < j - 1 implies line_outcome(ls[c + 1]) == Ok::<Seq<u64>, StatError>(#[trigger] cores.deep_view()[c]) by {
            assert(cores.deep_view()[c] =~= cores@[c]@);
        }
    }
    Ok((cpu, cores))
}

} // verus!
