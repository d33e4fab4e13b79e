//! Fixed-width text rows of the difference and usage tables, as ASCII bytes.
use vstd::prelude::*;
use crate::aggregate::Differences;
use crate::log::LogRecord;
use crate::stat::{is_number, parse_number, value_of};
use crate::counters::{usage_hundredths, NUM_FIELDS, usage_percent};

verus! {

pub const SPACE: u8 = 32;
pub const MINUS: u8 = 45;
pub const DOT: u8 = 46;
pub const PERCENT: u8 = 37;
pub const NL: u8 = 10;

/// Width of the label column.
pub const LABEL_WIDTH: usize = 5;

/// Width of each value column.
pub const VALUE_WIDTH: usize = 10;

/// Decimal digits of `n`, most significant first, without leading zeros.
pub open spec fn digits(n: nat) -> Seq<u8>
    decreases n,
{
    if n < 10 {
        seq![(48 + n) as u8]
    } else {
        digits(n / 10) + seq![(48 + n % 10) as u8]
    }
}

/// `x` in decimal, with a leading `-` when negative.
pub open spec fn decimal(x: int) -> Seq<u8> {
    if x < 0 {
        seq![MINUS] + digits((-x) as nat)
    } else {
        digits(x as nat)
    }
}

pub open spec fn spaces(n: int) -> Seq<u8> {
    Seq::new(if n > 0 { n as nat } else { 0 }, |i: int| SPACE)
}

/// `s` right-aligned in a column of `w` bytes (never cut).
pub open spec fn align_right(s: Seq<u8>, w: int) -> Seq<u8> {
    spaces(w - s.len()) + s
}

/// `s` left-aligned in a column of `w` bytes (never cut).
pub open spec fn align_left(s: Seq<u8>, w: int) -> Seq<u8> {
    s + spaces(w - s.len())
}

/// The values, each right-aligned in its own column.
pub open spec fn cells(values: Seq<i64>) -> Seq<u8>
    decreases values.len(),
{
    if values.len() == 0 {
        Seq::empty()
    } else {
        cells(values.drop_last()) + align_right(decimal(values.last() as int), VALUE_WIDTH as int)
    }
}

/// One table row: the label, then the values, then a line feed.
pub open spec fn row(label: Seq<u8>, values: Seq<i64>) -> Seq<u8> {
    align_left(label, LABEL_WIDTH as int) + cells(values) + seq![NL]
}

pub open spec fn cpu_label() -> Seq<u8> {
    seq![99u8, 112u8, 117u8]
}

/// The label of core `i`: `cpu0`, `cpu1`, ...
pub open spec fn core_label(i: nat) -> Seq<u8> {
    cpu_label() + digits(i)
}

/// The rows of the first `n` cores.
pub open spec fn core_rows(cores: Seq<Seq<i64>>, n: int) -> Seq<u8>
    decreases n,
{
    if n <= 0 {
        Seq::empty()
    } else {
        core_rows(cores, n - 1) + row(core_label((n - 1) as nat), cores[n - 1])
    }
}

/// Hundredths of a percent as text with two decimals: `6000` is `60.00`.
pub open spec fn hundredths_text(p: int) -> Seq<u8> {
    let a = if p < 0 { -p } else { p };
    let frac = a % 100;
    (if p < 0 { seq![MINUS] } else { Seq::empty() }) + digits((a / 100) as nat) + seq![DOT]
        + seq![(48 + frac / 10) as u8, (48 + frac % 10) as u8]
}

pub open spec fn not_available() -> Seq<u8> {
    seq![110u8, 47u8, 97u8]
}

/// The usage cell of one vector: the percentage and `%`, or `n/a` where the
/// vector is not ten fields long or its total time is zero.
pub open spec fn usage_cell(values: Seq<i64>) -> Seq<u8> {
    if values.len() != NUM_FIELDS {
        align_right(not_available(), VALUE_WIDTH as int + 1)
    } else {
        match usage_hundredths(values) {
            Some(p) => align_right(hundredths_text(p), VALUE_WIDTH as int) + seq![PERCENT],
            None => align_right(not_available(), VALUE_WIDTH as int + 1),
        }
    }
}

/// One usage row: label, a space, the usage cell, a line feed.
pub open spec fn usage_row(label: Seq<u8>, values: Seq<i64>) -> Seq<u8> {
    align_left(label, LABEL_WIDTH as int) + seq![SPACE] + usage_cell(values) + seq![NL]
}

pub open spec fn core_usage_rows(cores: Seq<Seq<i64>>, n: int) -> Seq<u8>
    decreases n,
{
    if n <= 0 {
        Seq::empty()
    } else {
        core_usage_rows(cores, n - 1) + usage_row(core_label((n - 1) as nat), cores[n - 1])
    }
}

pub open spec fn avg_label() -> Seq<u8> {
    seq![97u8, 118u8, 103u8]
}

fn digits_of(n: u128) -> (r: Vec<u8>)
    ensures
        r@ == digits(n as nat),
{
    let mut acc: Vec<u8> = Vec::new();
    let mut m: u128 = n;
    assert(digits(n as nat) =~= digits(m as nat) + acc@);
    while m >= 10
        invariant
            digits(n as nat) == digits(m as nat) + acc@,
        decreases m,
    {
        let ghost a0 = acc@;
        let ghost d = seq![(48 + m % 10) as u8];
        acc.insert(0, (48 + m % 10) as u8);
        assert(acc@ =~= d + a0);
        assert(digits(m as nat) == digits((m / 10) as nat) + d);
        assert((digits((m / 10) as nat) + d) + a0 =~= digits((m / 10) as nat) + (d + a0));
        m = m / 10;
    }
    let ghost a0 = acc@;
    acc.insert(0, (48 + m) as u8);
    assert(acc@ =~= digits(m as nat) + a0);
    acc
}

/// Appends `s` to `out`.
fn push_all(out: &mut Vec<u8>, s: &[u8])
    ensures
        final(out)@ == old(out)@ + s@,
{
    let ghost start = out@;
    let mut i: usize = 0;
    while i < s.len()
        invariant
            i <= s@.len(),
            out@ == start + s@.take(i as int),
        decreases s@.len() - i,
    {
        out.push(s[i]);
        i = i + 1;
        assert(out@ =~= start + s@.take(i as int));
    }
    assert(s@.take(i as int) =~= s@);
}

/// Appends `n` spaces (none when `n <= 0`).
fn push_spaces(out: &mut Vec<u8>, n: i128)
    requires
        n < 0x1_0000_0000,
    ensures
        final(out)@ == old(out)@ + spaces(n as int),
{
    let ghost start = out@;
    let mut i: i128 = 0;
    while i < n
        invariant
            0 <= i,
            i <= n || i == 0,
            n <= 0 ==> i == 0,
            out@ == start + spaces(i as int),
        decreases n - i,
    {
        out.push(SPACE);
        i = i + 1;
        assert(out@ =~= start + spaces(i as int));
    }
    assert(spaces(i as int) =~= spaces(n as int));
}

/// `x` in decimal.
pub fn format_integer(x: i128) -> (r: Vec<u8>)
    ensures
        r@ == decimal(x as int),
{
    if x < 0 {
        let mut r: Vec<u8> = Vec::new();
        r.push(MINUS);
        let d = digits_of(((-(x + 1)) as u128) + 1);
        push_all(&mut r, d.as_slice());
        r
    } else {
        digits_of(x as u128)
    }
}

/// Appends `s` right-aligned in a column of `w` bytes.
fn push_right(out: &mut Vec<u8>, s: &[u8], w: usize)
    requires
        w <= 16,
    ensures
        final(out)@ == old(out)@ + align_right(s@, w as int),
{
    let pad: i128 = w as i128 - s.len() as i128;
    push_spaces(out, pad);
    push_all(out, s);
    assert(final(out)@ =~= old(out)@ + align_right(s@, w as int));
}

/// Appends `s` left-aligned in a column of `w` bytes.
fn push_left(out: &mut Vec<u8>, s: &[u8], w: usize)
    requires
        w <= 16,
    ensures
        final(out)@ == old(out)@ + align_left(s@, w as int),
{
    push_all(out, s);
    let pad: i128 = w as i128 - s.len() as i128;
    push_spaces(out, pad);
    assert(final(out)@ =~= old(out)@ + align_left(s@, w as int));
}

/// One table row: `label` left-aligned in five columns, then each value
/// right-aligned in ten, then a line feed.
pub fn render_row(label: &[u8], values: &[i64]) -> (r: Vec<u8>)
    ensures
        r@ == row(label@, values@),
{
    let mut out: Vec<u8> = Vec::new();
    push_left(&mut out, label, LABEL_WIDTH);
    let ghost head = out@;
    let mut i: usize = 0;
    while i < values.len()
        invariant
            i <= values@.len(),
            out@ == head + cells(values@.take(i as int)),
        decreases values@.len() - i,
    {
        let text = format_integer(values[i] as i128);
        push_right(&mut out, text.as_slice(), VALUE_WIDTH);
        assert(values@.take(i as int + 1).drop_last() =~= values@.take(i as int));
        i = i + 1;
        assert(out@ =~= head + cells(values@.take(i as int)));
    }
    assert(values@.take(i as int) =~= values@);
    out.push(NL);
    assert(out@ =~= row(label@, values@));
    out
}

fn cpu_label_exec() -> (r: Vec<u8>)
    ensures
        r@ == cpu_label(),
{
    let mut r: Vec<u8> = Vec::new();
    r.push(99);
    r.push(112);
    r.push(117);
    assert(r@ =~= cpu_label());
    r
}

/// The label of core `i`.
pub fn format_core_label(i: usize) -> (r: Vec<u8>)
    ensures
        r@ == core_label(i as nat),
{
    let mut r = cpu_label_exec();
    let d = digits_of(i as u128);
    push_all(&mut r, d.as_slice());
    r
}

/// The rows of the difference table: the aggregate, labelled `cpu`, then one
/// row per core, labelled `cpu0`, `cpu1`, ...
pub fn render_differences(d: &Differences) -> (r: Vec<u8>)
    ensures
        r@ == row(cpu_label(), d.cpu@) + core_rows(d.cores.deep_view(), d.cores@.len() as int),
{
    let label = cpu_label_exec();
    let mut out = render_row(label.as_slice(), d.cpu.as_slice());
    let ghost head = out@;
    let ghost cores = d.cores.deep_view();
    let mut c: usize = 0;
    while c < d.cores.len()
        invariant
            c <= d.cores@.len(),
            cores == d.cores.deep_view(),
            out@ == head + core_rows(cores, c as int),
        decreases d.cores@.len() - c,
    {
        let l = format_core_label(c);
        let rw = render_row(l.as_slice(), d.cores[c].as_slice());
        assert(d.cores[c as int]@ =~= cores[c as int]);
        push_all(&mut out, rw.as_slice());
        c = c + 1;
        assert(out@ =~= head + core_rows(cores, c as int));
    }
    out
}

/// Hundredths of a percent as text with two decimals.
pub fn format_hundredths(p: i128) -> (r: Vec<u8>)
    ensures
        r@ == hundredths_text(p as int),
{
    let a: u128 = if p < 0 { ((-(p + 1)) as u128) + 1 } else { p as u128 };
    let mut out: Vec<u8> = Vec::new();
    if p < 0 {
        out.push(MINUS);
    }
    let whole = digits_of(a / 100);
    push_all(&mut out, whole.as_slice());
    out.push(DOT);
    let frac: u128 = a % 100;
    out.push((48 + frac / 10) as u8);
    out.push((48 + frac % 10) as u8);
    assert(out@ =~= hundredths_text(p as int));
    out
}

fn not_available_exec() -> (r: Vec<u8>)
    ensures
        r@ == not_available(),
{
    let mut r: Vec<u8> = Vec::new();
    r.push(110);
    r.push(47);
    r.push(97);
    assert(r@ =~= not_available());
    r
}

/// One usage row: `label` left-aligned in five columns, a space, then the
/// usage percentage with two decimals and `%`, or `n/a`.
pub fn render_usage_row(label: &[u8], values: &[i64]) -> (r: Vec<u8>)
    ensures
        r@ == usage_row(label@, values@),
{
    let mut out: Vec<u8> = Vec::new();
    push_left(&mut out, label, LABEL_WIDTH);
    out.push(SPACE);
    let p = if values.len() == NUM_FIELDS {
        usage_percent(values)
    } else {
        None
    };
    match p {
        Some(p) => {
            let t = format_hundredths(p);
            push_right(&mut out, t.as_slice(), VALUE_WIDTH);
            out.push(PERCENT);
        },
        None => {
            let t = not_available_exec();
            push_right(&mut out, t.as_slice(), VALUE_WIDTH + 1);
        },
    }
    out.push(NL);
    assert(out@ =~= usage_row(label@, values@));
    out
}

fn avg_label_exec() -> (r: Vec<u8>)
    ensures
        r@ == avg_label(),
{
    let mut r: Vec<u8> = Vec::new();
    r.push(97);
    r.push(118);
    r.push(103);
    assert(r@ =~= avg_label());
    r
}

/// The rows of the usage table: the aggregate, labelled `avg`, then one row
/// per core, labelled `cpu0`, `cpu1`, ...
pub fn render_usage(d: &Differences) -> (r: Vec<u8>)
    ensures
        r@ == usage_row(avg_label(), d.cpu@) + core_usage_rows(d.cores.deep_view(), d.cores@.len() as int),
{
    let label = avg_label_exec();
    let mut out = render_usage_row(label.as_slice(), d.cpu.as_slice());
    let ghost head = out@;
    let ghost cores = d.cores.deep_view();
    let mut c: usize = 0;
    while c < d.cores.len()
        invariant
            c <= d.cores@.len(),
            cores == d.cores.deep_view(),
            out@ == head + core_usage_rows(cores, c as int),
        decreases d.cores@.len() - c,
    {
        let l = format_core_label(c);
        let rw = render_usage_row(l.as_slice(), d.cores[c].as_slice());
        assert(d.cores[c as int]@ =~= cores[c as int]);
        push_all(&mut out, rw.as_slice());
        c = c + 1;
        assert(out@ =~= head + core_usage_rows(cores, c as int));
    }
    out
}

/// Width of each value column of a stored record.
pub const RECORD_WIDTH: usize = 8;

/// The values of a stored record, each after a space, right-aligned in eight columns.
pub open spec fn record_cells(values: Seq<i64>) -> Seq<u8>
    decreases values.len(),
{
    if values.len() == 0 {
        Seq::empty()
    } else {
        record_cells(values.drop_last()) + seq![SPACE] + align_right(
            decimal(values.last() as int),
            RECORD_WIDTH as int,
        )
    }
}

/// The core rows of a stored record: `cpu` and the core index in two columns.
pub open spec fn record_core_rows(cores: Seq<Seq<i64>>, n: int) -> Seq<u8>
    decreases n,
{
    if n <= 0 {
        Seq::empty()
    } else {
        record_core_rows(cores, n - 1) + cpu_label() + align_left(digits((n - 1) as nat), 2)
            + record_cells(cores[n - 1]) + seq![NL]
    }
}

fn push_record_cells(out: &mut Vec<u8>, values: &[i64])
    ensures
        final(out)@ == old(out)@ + record_cells(values@),
{
    let ghost head = out@;
    let mut i: usize = 0;
    while i < values.len()
        invariant
            i <= values@.len(),
            out@ == head + record_cells(values@.take(i as int)),
        decreases values@.len() - i,
    {
        let text = format_integer(values[i] as i128);
        out.push(SPACE);
        push_right(out, text.as_slice(), RECORD_WIDTH);
        assert(values@.take(i as int + 1).drop_last() =~= values@.take(i as int));
        i = i + 1;
        assert(out@ =~= head + record_cells(values@.take(i as int)));
    }
    assert(values@.take(i as int) =~= values@);
}

/// The rows of a stored record: the aggregate row, labelled `cpu`, then one
/// row per core.
pub fn render_record(r: &LogRecord) -> (out: Vec<u8>)
    ensures
        out@ == cpu_label() + record_cells(r.cpu@) + seq![NL] + record_core_rows(
            r.cores.deep_view(),
            r.cores@.len() as int,
        ),
{
    let mut out = cpu_label_exec();
    push_record_cells(&mut out, r.cpu.as_slice());
    out.push(NL);
    let ghost head = out@;
    let ghost cores = r.cores.deep_view();
    let mut c: usize = 0;
    while c < r.cores.len()
        invariant
            c <= r.cores@.len(),
            cores == r.cores.deep_view(),
            out@ == head + record_core_rows(cores, c as int),
        decreases r.cores@.len() - c,
    {
        let label = cpu_label_exec();
        push_all(&mut out, label.as_slice());
        let d = digits_of(c as u128);
        push_left(&mut out, d.as_slice(), 2);
        push_record_cells(&mut out, r.cores[c].as_slice());
        out.push(NL);
        assert(r.cores[c as int]@ =~= cores[c as int]);
        c = c + 1;
        assert(out@ =~= head + record_core_rows(cores, c as int));
    }
    out
}

pub const COLON: u8 = 58;

/// The heading line of a stored record: a blank line, the time text, `:`.
pub open spec fn heading(time_text: Seq<u8>) -> Seq<u8> {
    seq![NL] + time_text + seq![COLON, NL]
}

/// Relies on chrono's `DateTime::from_timestamp` (`None` where the seconds lie
/// outside its range) and on `format` in the machine's local time zone, as
/// `YYYY-MM-DD HH:MM:SS`. The text depends on the time zone, so nothing is
/// stated of it.
#[verifier::external_body]
fn local_time_text(timestamp: i64) -> (r: Option<Vec<u8>>)
{
    chrono::DateTime::from_timestamp(timestamp, 0).map(
        |t| t.with_timezone(&chrono::Local).format("%Y-%m-%d %H:%M:%S").to_string().into_bytes(),
    )
}

/// The heading for the given time text.
pub fn heading_of(time_text: &[u8]) -> (r: Vec<u8>)
    ensures
        r@ == heading(time_text@),
{
    let mut out: Vec<u8> = Vec::new();
    out.push(NL);
    push_all(&mut out, time_text);
    out.push(COLON);
    out.push(NL);
    assert(out@ =~= heading(time_text@));
    out
}

/// The heading of the record stored under `key`: the key read as epoch
/// seconds and shown in local time. `None` where the key is not a decimal
/// number of at most `i64::MAX`, or the time cannot be shown.
pub fn record_heading(key: &[u8]) -> (r: Option<Vec<u8>>)
    ensures
        r is Some ==> is_number(key@) && value_of(key@) <= i64::MAX,
        r matches Some(h) ==> exists|t: Seq<u8>| h@ == heading(t),
{
    match parse_number(key) {
        Some(ts) => {
            if ts > i64::MAX as u64 {
                return None;
            }
            match local_time_text(ts as i64) {
                Some(t) => {
                    let h = heading_of(t.as_slice());
                    Some(h)
                },
                None => None,
            }
        },
        None => None,
    }
}

} // verus!
