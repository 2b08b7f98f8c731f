//! Byte counts, rates and percentages as text, worked out in doubles.

use crate::double::{
    count, law_counts_keep_their_order, law_double_over_itself_is_one,
    law_one_times_a_double_is_the_double, law_small_counts_are_exact, lemma_count_spacing,
    lemma_hundred, lemma_hundredfold, lemma_nearest, lemma_quotient_from_one, lemma_zero_times,
    zero, Double, DoubleView, LEAST_MANTISSA,
};
use crate::number::{
    decimal, decimal_text, padded_decimal, padded_decimal_text, wide_decimal_text,
};
use crate::rows::ParseStats;
use crate::text::push_char;
use vstd::arithmetic::power2::{lemma2_to64, lemma2_to64_rest};
use vstd::prelude::*;

verus! {

/// Bytes in a KiB.
pub const KIB: u32 = 1024;

/// Bytes in a MiB.
pub const MIB: u32 = 1_048_576;

/// Bytes in a GiB.
pub const GIB: u32 = 1_073_741_824;

/// Nanoseconds in a second.
pub const SECOND: u64 = 1_000_000_000;

/// A double with one decimal place.
pub open spec fn one_place(x: DoubleView) -> Seq<char> {
    let tenths = x.scaled(10);
    decimal((tenths / 10) as nat) + "."@ + decimal((tenths % 10) as nat)
}

/// An amount from a KiB on, in the largest binary unit that it reaches.
pub open spec fn in_units(x: DoubleView) -> Seq<char> {
    if x.below(MIB as int) {
        one_place(x.over(count(KIB as int))) + " KiB"@
    } else if x.below(GIB as int) {
        one_place(x.over(count(MIB as int))) + " MiB"@
    } else {
        one_place(x.over(count(GIB as int))) + " GiB"@
    }
}

/// A byte count in the largest binary unit that it reaches.
pub open spec fn bytes_text(bytes: u64) -> Seq<char> {
    let x = count(bytes as int);
    if x.below(KIB as int) {
        decimal(bytes as nat) + " B"@
    } else {
        in_units(x)
    }
}

/// A rate in bytes per second, in the largest binary unit that it reaches;
/// rounded down to whole bytes below a KiB, where decimals say nothing.
pub open spec fn rate_text(rate: DoubleView) -> Seq<char> {
    if rate.below(KIB as int) {
        decimal(rate.floor() as nat) + " B/sec"@
    } else {
        in_units(rate) + "/sec"@
    }
}

/// A time in seconds: the whole ones, and the nanoseconds over a second's.
pub open spec fn seconds(nanos: u64) -> DoubleView {
    count((nanos / SECOND) as int).plus(
        count((nanos % SECOND) as int).over(count(SECOND as int)),
    )
}

/// A time in seconds, with three decimal places.
pub open spec fn seconds_text(nanos: u64) -> Seq<char> {
    let millis = seconds(nanos).scaled(1000);
    decimal((millis / 1000) as nat) + "."@ + padded_decimal((millis % 1000) as nat, 3) + "s"@
}

/// A double with one decimal place.
fn one_place_text(x: Double) -> (text: String)
    requires
        x.wf(),
        x.exponent <= 50,
    ensures
        text@ == one_place(x@),
{
    let tenths: u128 = x.scaled(10);
    let mut text = wide_decimal_text(tenths / 10);
    text.append(".");
    let last = wide_decimal_text(tenths % 10);
    text.append(last.as_str());
    text
}

fn in_units_text(x: Double) -> (text: String)
    requires
        x.wf(),
        -500 <= x.exponent <= 45,
    ensures
        text@ == in_units(x@),
{
    if x.below(MIB) {
        let mut text = one_place_text(x.over(Double::of(KIB as u64)));
        text.append(" KiB");
        text
    } else if x.below(GIB) {
        let mut text = one_place_text(x.over(Double::of(MIB as u64)));
        text.append(" MiB");
        text
    } else {
        let mut text = one_place_text(x.over(Double::of(GIB as u64)));
        text.append(" GiB");
        text
    }
}

/// A byte count in the largest binary unit that it reaches: whole bytes
/// below a KiB, one decimal place above.
pub fn format_bytes(bytes: u64) -> (text: String)
    ensures
        text@ == bytes_text(bytes),
{
    let x = Double::of(bytes);
    if x.below(KIB) {
        let mut text = decimal_text(bytes);
        text.append(" B");
        text
    } else {
        in_units_text(x)
    }
}

fn seconds_of(nanos: u64) -> (time: Double)
    ensures
        time@ == seconds(nanos),
        time.wf(),
        time.mantissa == 0 <==> nanos == 0,
        -83 <= time.exponent <= 50,
{
    let whole: u64 = nanos / SECOND;
    let over: u64 = nanos % SECOND;
    let (second, secs, rest) = (Double::of(SECOND), Double::of(whole), Double::of(over));
    proof {
        lemma2_to64();
        lemma2_to64_rest();
        lemma_count_spacing(SECOND as int, second.exponent as int, 29, 30);
        if whole > 0 {
            lemma_count_spacing(whole as int, secs.exponent as int, 0, 35);
        }
        if over > 0 {
            lemma_count_spacing(over as int, rest.exponent as int, 0, 30);
        }
    }
    let fraction = rest.over(second);
    secs.plus(fraction)
}

/// The fetch statistics: what was fetched, how long it took, and at what
/// rate where that can be told.
pub open spec fn fetch_text(stats: ParseStats) -> Seq<char> {
    let (bytes, nanos) = (stats.walked_bytes.0, stats.elapsed_nanos);
    let total = decimal(stats.records as nat) + " records ("@ + bytes_text(bytes)
        + ") fetched in "@ + seconds_text(nanos);
    if stats.records == 0 || nanos == 0 {
        total
    } else {
        total + " ("@ + one_place(count(stats.records as int).over(seconds(nanos)))
            + " records/sec, "@ + rate_text(count(bytes as int).over(seconds(nanos))) + ")"@
    }
}

/// The rate of `bytes` bytes in `nanos` nanoseconds.
pub fn format_byte_rate(bytes: u64, nanos: u64) -> (text: String)
    requires
        nanos > 0,
    ensures
        text@ == rate_text(count(bytes as int).over(seconds(nanos))),
{
    let rate = Double::of(bytes).over(seconds_of(nanos));
    if rate.below(KIB) {
        let mut text = wide_decimal_text(rate.floor());
        text.append(" B/sec");
        text
    } else {
        let mut text = in_units_text(rate);
        text.append("/sec");
        text
    }
}

fn time_text(nanos: u64) -> (text: String)
    ensures
        text@ == seconds_text(nanos),
{
    let time = seconds_of(nanos);
    let millis: u128 = time.scaled(1000);
    let mut text = wide_decimal_text(millis / 1000);
    text.append(".");
    let fraction = padded_decimal_text((millis % 1000) as u64, 3);
    text.append(fraction.as_str());
    text.append("s");
    text
}

/// The fetch statistics as a line.  The bytes are those scanned, rejected
/// records included; rates are left out where nothing was fetched or no time
/// passed.
pub fn format_fetch_stats(stats: &ParseStats) -> (text: String)
    ensures
        text@ == fetch_text(*stats),
{
    let bytes: u64 = stats.walked_bytes.0;
    let nanos: u64 = stats.elapsed_nanos;
    let mut text = decimal_text(stats.records);
    text.append(" records (");
    let count = format_bytes(bytes);
    text.append(count.as_str());
    text.append(") fetched in ");
    let time = time_text(nanos);
    text.append(time.as_str());
    if stats.records == 0 || nanos == 0 {
        return text;
    }
    text.append(" (");
    let records = one_place_text(Double::of(stats.records).over(seconds_of(nanos)));
    text.append(records.as_str());
    text.append(" records/sec, ");
    let rate = format_byte_rate(bytes, nanos);
    text.append(rate.as_str());
    text.append(")");
    text
}

/// The share of `whole` that `part` is, in percent.
pub open spec fn percentage(part: u64, whole: u64) -> DoubleView {
    count(part as int).over(count(whole as int)).times(count(100))
}

/// The percentage done: no more than all of it, and all of it where there is
/// nothing to do.
pub open spec fn percent_done(part: u64, whole: u64) -> DoubleView {
    if whole == 0 || percentage(part, whole).above(100) {
        count(100)
    } else {
        percentage(part, whole)
    }
}

/// The cells of a bar of `width` that are filled at a percentage: its share
/// of them rounded down, and at least one once anything is done.
pub open spec fn filled_cells(percent: DoubleView, width: int) -> int {
    let cells = percent.over(count(100)).times(count(width)).floor();
    if cells == 0 && percent.above(0) && width > 0 {
        1
    } else if cells > width {
        width
    } else {
        cells
    }
}

/// `n` times the character.
pub open spec fn run_of(c: char, n: int) -> Seq<char> {
    Seq::new(
        if n > 0 {
            n as nat
        } else {
            0
        },
        |i: int| c,
    )
}

/// The inside of a progress bar.
pub open spec fn bar(part: u64, whole: u64, width: int) -> Seq<char> {
    let filled = filled_cells(percent_done(part, whole), width);
    run_of('\u{2588}', filled) + run_of(' ', width - filled)
}

/// The text with spaces in front to `width` characters.
pub open spec fn right_aligned(text: Seq<char>, width: int) -> Seq<char> {
    run_of(' ', width - text.len()) + text
}

/// The line that stands for a running operation: what it does, a bar where
/// there is room for one, and how far it has come.
pub open spec fn progress_line(
    label: Seq<char>,
    part: u64,
    whole: u64,
    records: u64,
    width: int,
) -> Seq<char> {
    let prefix = label + ": "@;
    let numbers = right_aligned(one_place(percent_done(part, whole)), 5) + "%   "@ + bytes_text(part)
        + " / "@ + bytes_text(whole) + "   "@ + decimal(records as nat) + " records"@;
    let fixed = prefix.len() + numbers.len();
    if width >= fixed + MIN_BAR_INNER + 3 {
        prefix + "["@ + bar(part, whole, width - fixed - 3) + "] "@ + numbers
    } else {
        prefix + numbers
    }
}

/// The narrowest bar worth drawing.
pub const MIN_BAR_INNER: usize = 8;

pub(crate) fn push_run(text: &mut String, c: char, n: usize)
    ensures
        final(text)@ == old(text)@ + run_of(c, n as int),
{
    let mut i: usize = 0;
    assert(text@ =~= old(text)@ + run_of(c, 0));
    while i < n
        invariant
            i <= n,
            text@ == old(text)@ + run_of(c, i as int),
        decreases n - i,
    {
        push_char(text, c);
        i = i + 1;
        assert(text@ =~= old(text)@ + run_of(c, i as int));
    }
}

/// Appends `more`, aligned to the right in `width` columns.
pub(crate) fn push_right_aligned(text: &mut String, more: &str, width: usize)
    ensures
        final(text)@ == old(text)@ + right_aligned(more@, width as int),
{
    let len: usize = more.unicode_len();
    if len < width {
        push_run(text, ' ', width - len);
    }
    text.append(more);
    assert(text@ =~= old(text)@ + right_aligned(more@, width as int));
}

fn share_of(part: u64, whole: u64) -> (percent: Double)
    requires
        whole > 0,
    ensures
        percent@ == percentage(part, whole),
        percent.wf(),
        percent.mantissa == 0 <==> part == 0,
        -115 <= percent.exponent <= 20,
{
    let hundred = Double::of(100);
    proof {
        lemma2_to64();
        lemma_count_spacing(100, hundred.exponent as int, 6, 7);
    }
    Double::of(part).over(Double::of(whole)).times(hundred)
}

fn done(part: u64, whole: u64) -> (percent: Double)
    ensures
        percent@ == percent_done(part, whole),
        percent.wf(),
        percent.mantissa == 0 <==> part == 0 && whole > 0,
        -115 <= percent.exponent <= 20,
        percent.mantissa > 0 ==> percent.exponent <= -45,
{
    let hundred = Double::of(100);
    proof {
        lemma2_to64();
        lemma_count_spacing(100, hundred.exponent as int, 6, 7);
    }
    if whole == 0 {
        return hundred;
    }
    let percent = share_of(part, whole);
    if percent.above(100) {
        hundred
    } else {
        proof {
            if part > 0 {
                percent.lemma_at_most(100, 7);
            }
        }
        percent
    }
}

/// The inside of a progress bar of `width` cells for the share `part` of
/// `whole`.
pub fn progress_bar_inner(part: u64, whole: u64, width: usize) -> (text: String)
    ensures
        text@ == bar(part, whole, width as int),
        text@.len() == width,
{
    let percent = done(part, whole);
    let hundred = Double::of(100);
    proof {
        lemma2_to64();
        lemma_count_spacing(100, hundred.exponent as int, 6, 7);
    }
    let cells: u128 = percent.over(hundred).times(Double::of(width as u64)).floor();
    let filled: usize = if cells == 0 && percent.above(0) && width > 0 {
        1
    } else if cells > width as u128 {
        width
    } else {
        cells as usize
    };
    let mut text = String::new();
    push_run(&mut text, '\u{2588}', filled);
    push_run(&mut text, ' ', width - filled);
    assert(text@ =~= bar(part, whole, width as int));
    text
}

/// A progress line of `width` columns.  The bar shrinks, and is dropped
/// where it would be too narrow, so that the numbers are never cut.
pub fn format_progress(label: &str, part: u64, whole: u64, records: u64, width: usize) -> (line:
    String)
    ensures
        line@ == progress_line(label@, part, whole, records, width as int),
{
    let mut prefix = label.to_owned();
    prefix.append(": ");
    let percent = one_place_text(done(part, whole));
    let mut numbers = String::new();
    push_right_aligned(&mut numbers, percent.as_str(), 5);
    assert(numbers@ =~= right_aligned(percent@, 5));
    numbers.append("%   ");
    let done_text = format_bytes(part);
    numbers.append(done_text.as_str());
    numbers.append(" / ");
    let whole_text = format_bytes(whole);
    numbers.append(whole_text.as_str());
    numbers.append("   ");
    let count = decimal_text(records);
    numbers.append(count.as_str());
    numbers.append(" records");
    let prefix_len: usize = prefix.as_str().unicode_len();
    let numbers_len: usize = numbers.as_str().unicode_len();
    if prefix_len <= width && numbers_len <= width - prefix_len && width - prefix_len - numbers_len
        >= MIN_BAR_INNER + 3 {
        let inner = progress_bar_inner(part, whole, width - prefix_len - numbers_len - 3);
        prefix.append("[");
        prefix.append(inner.as_str());
        prefix.append("] ");
    }
    prefix.append(numbers.as_str());
    prefix
}

/// The share of `whole` that `part` is, in whole percent.
pub(crate) fn percent(part: u64, whole: u64) -> (text: String)
    requires
        whole > 0,
    ensures
        text@ == decimal(percentage(part, whole).scaled(1) as nat),
{
    wide_decimal_text(share_of(part, whole).scaled(1))
}

/// A progress bar fills its width, shows something as soon as anything is
/// done and nothing before, and is full once all is done.
pub proof fn law_progress_bar_shows_how_far(part: u64, whole: u64, width: int)
    requires
        0 < width < 2 * LEAST_MANTISSA,
        0 < whole,
    ensures
        bar(part, whole, width).len() == width,
        part > 0 <==> bar(part, whole, width)[0] == '\u{2588}',
        part >= whole ==> forall|i: int|
            0 <= i < width ==> (#[trigger] bar(part, whole, width)[i]) == '\u{2588}',
{
    let hundred = count(100);
    let percent = percent_done(part, whole);
    let cells = percent.over(hundred).times(count(width)).floor();
    lemma_hundred();
    lemma_nearest(width, 1, 0);
    if part == 0 {
        assert(percentage(part, whole) == zero()) by {
            assert(count(0) == zero());
            assert(zero().over(count(whole as int)) == zero());
            lemma_zero_times(hundred);
        }
        assert(!zero().above(100) && !zero().above(0));
        assert(percent.over(hundred) == zero());
        lemma_zero_times(count(width));
        assert(cells == 0);
    } else {
        lemma_nearest(part as int, 1, 0);
        lemma_nearest(whole as int, 1, 0);
        let (a, b) = (count(part as int), count(whole as int));
        lemma_nearest(a.mantissa, b.mantissa, a.exponent - b.exponent);
        let share = a.over(b);
        assert(share.mantissa * hundred.mantissa > 0) by (nonlinear_arith)
            requires
                share.mantissa > 0,
                hundred.mantissa > 0,
        ;
        lemma_nearest(
            share.mantissa * hundred.mantissa,
            1,
            share.exponent + hundred.exponent,
        );
        percent.lemma_positive();
        let part_done = percent.over(hundred);
        lemma_nearest(percent.mantissa, hundred.mantissa, percent.exponent - hundred.exponent);
        assert(part_done.mantissa * count(width).mantissa > 0) by (nonlinear_arith)
            requires
                part_done.mantissa > 0,
                count(width).mantissa > 0,
        ;
        lemma_nearest(
            part_done.mantissa * count(width).mantissa,
            1,
            part_done.exponent + count(width).exponent,
        );
        part_done.times(count(width)).lemma_positive();
        if part >= whole {
            law_counts_keep_their_order(part as int, whole as int);
            lemma_quotient_from_one(a, b);
            lemma_hundredfold(share);
            assert(percent == hundred);
            law_double_over_itself_is_one(hundred);
            law_small_counts_are_exact(width);
            law_one_times_a_double_is_the_double(count(width));
            assert(cells == width);
        }
    }
}

/// Sizes are told in the largest unit of which there is one whole, bytes
/// exactly.
pub proof fn law_sizes_are_told_in_their_unit(bytes: u64)
    requires
        bytes < 2 * LEAST_MANTISSA,
    ensures
        bytes < 1_024 ==> bytes_text(bytes) == decimal(bytes as nat) + " B"@,
        1_024 <= bytes < 1_048_576 ==> bytes_text(bytes) == one_place(
            count(bytes as int).over(count(1_024)),
        ) + " KiB"@,
        1_048_576 <= bytes < 1_073_741_824 ==> bytes_text(bytes) == one_place(
            count(bytes as int).over(count(1_048_576)),
        ) + " MiB"@,
        1_073_741_824 <= bytes ==> bytes_text(bytes) == one_place(
            count(bytes as int).over(count(1_073_741_824)),
        ) + " GiB"@,
{
    crate::double::law_small_counts_lie_where_they_are(bytes as int, KIB as int);
    crate::double::law_small_counts_lie_where_they_are(bytes as int, MIB as int);
    crate::double::law_small_counts_lie_where_they_are(bytes as int, GIB as int);
}

/// A progress line says what is done, how much of how much and how many
/// records; where there is room for a bar, it is as wide as asked.
pub proof fn law_progress_line_has_its_width(
    label: Seq<char>,
    part: u64,
    whole: u64,
    records: u64,
    width: int,
)
    requires
        0 < width < 2 * LEAST_MANTISSA,
        0 < whole,
    ensures
        ({
            let line = progress_line(label, part, whole, records, width);
            let bare = label + ": "@ + right_aligned(one_place(percent_done(part, whole)), 5)
                + "%   "@ + bytes_text(part) + " / "@ + bytes_text(whole) + "   "@ + decimal(
                records as nat,
            ) + " records"@;
            &&& line.take(label.len() as int) == label
            &&& width >= bare.len() + 11 ==> line.len() == width
            &&& width < bare.len() + 11 ==> line == bare
        }),
{
    reveal_strlit("[");
    reveal_strlit("] ");
    let numbers = right_aligned(one_place(percent_done(part, whole)), 5) + "%   "@ + bytes_text(
        part,
    ) + " / "@ + bytes_text(whole) + "   "@ + decimal(records as nat) + " records"@;
    let bare = label + ": "@ + right_aligned(one_place(percent_done(part, whole)), 5) + "%   "@
        + bytes_text(part) + " / "@ + bytes_text(whole) + "   "@ + decimal(records as nat)
        + " records"@;
    let line = progress_line(label, part, whole, records, width);
    let prefix = label + ": "@;
    let fixed = prefix.len() + numbers.len();
    assert(prefix + numbers =~= bare);
    assert(line.take(label.len() as int) =~= label);
    if width >= fixed + 11 {
        law_progress_bar_shows_how_far(part, whole, width - fixed - 3);
    }
}

/// Without a record or a measurable time no rate is told.
pub proof fn law_rates_need_records_and_time(stats: ParseStats)
    ensures
        ({
            let total = decimal(stats.records as nat) + " records ("@ + bytes_text(
                stats.walked_bytes.0,
            ) + ") fetched in "@ + seconds_text(stats.elapsed_nanos);
            &&& stats.records == 0 || stats.elapsed_nanos == 0 ==> fetch_text(stats) == total
            &&& stats.records > 0 && stats.elapsed_nanos > 0 ==> fetch_text(stats) == total + " ("@
                + one_place(count(stats.records as int).over(seconds(stats.elapsed_nanos)))
                + " records/sec, "@ + rate_text(
                count(stats.walked_bytes.0 as int).over(seconds(stats.elapsed_nanos)),
            ) + ")"@
        }),
{
}

/// Text set to the right has blanks in front, as many as it takes to fill the
/// width.
pub proof fn law_text_to_the_right_ends_at_the_width(text: Seq<char>, width: int)
    requires
        text.len() <= width,
    ensures
        right_aligned(text, width).len() == width,
        right_aligned(text, width).skip(width - text.len()) == text,
        forall|i: int|
            0 <= i < width - text.len() ==> #[trigger] right_aligned(text, width)[i] == ' ',
{
    assert(right_aligned(text, width).skip(width - text.len()) =~= text);
}

/// One place behind the point: the digits in front of it and the one behind
/// are the tenths, rounded.
pub proof fn law_one_place_tells_tenths(x: DoubleView)
    requires
        0 <= x.scaled(10),
    ensures
        ({
            let text = one_place(x);
            let tenths = x.scaled(10);
            &&& text.last() == ('0' as int + tenths % 10) as char
            &&& text[text.len() - 2] == '.'
            &&& text.take(text.len() - 2) == decimal((tenths / 10) as nat)
        }),
{
    reveal_strlit(".");
    let tenths = x.scaled(10);
    crate::number::law_numbers_are_written_in_tens((tenths % 10) as nat);
    let text = one_place(x);
    assert(text.take(text.len() - 2) =~= decimal((tenths / 10) as nat));
}

/// Times are told in seconds with three places, the thousandths rounded.
pub proof fn law_times_are_told_in_thousandths(nanos: u64)
    requires
        0 <= seconds(nanos).scaled(1000),
    ensures
        ({
            let text = seconds_text(nanos);
            let millis = seconds(nanos).scaled(1000);
            &&& text.last() == 's' && text[text.len() - 5] == '.'
            &&& text[text.len() - 2] == ('0' as int + millis % 10) as char
            &&& text.take(text.len() - 5) == decimal((millis / 1000) as nat)
        }),
{
    reveal_strlit(".");
    reveal_strlit("s");
    let millis = seconds(nanos).scaled(1000);
    let places = (millis % 1000) as nat;
    crate::number::law_padded_numbers_have_their_width(places, 3);
    let text = seconds_text(nanos);
    assert(text.take(text.len() - 5) =~= decimal((millis / 1000) as nat));
    assert(places % 10 == millis % 10);
    assert(text[text.len() - 2] == padded_decimal(places, 3).last());
}

/// A time in seconds is its whole seconds and, of the rest, what part of a
/// second it is.
pub proof fn law_seconds_are_whole_ones_and_a_part(whole: u64, rest: u64)
    requires
        rest < 1_000_000_000,
        whole * 1_000_000_000 + rest <= u64::MAX,
    ensures
        seconds((whole * 1_000_000_000 + rest) as u64) == count(whole as int).plus(
            count(rest as int).over(count(1_000_000_000)),
        ),
{
}

} // verus!
