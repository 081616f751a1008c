//! Sizes, durations and remaining times for display.

use vstd::prelude::*;

use crate::numbers;
use crate::text;

verus! {

/// Bytes in a kilobyte.
pub const KB: u64 = 1024;

/// Bytes in a megabyte.
pub const MB: u64 = 1024 * 1024;

/// Bytes in a gigabyte.
pub const GB: u64 = 1024 * 1024 * 1024;

// ---------------------------------------------------------------------------
// Sizes
// ---------------------------------------------------------------------------

/// `a / b` rounded to the nearest integer, a tie to the even one.
pub open spec fn rounded_quotient(a: nat, b: nat) -> nat {
    let q = a / b;
    let r = a % b;
    if 2 * r < b || (2 * r == b && q % 2 == 0) {
        q
    } else {
        q + 1
    }
}

/// The distance between neighbouring double precision numbers at `n`, at least
/// one: they have 53 significant bits.
pub open spec fn double_spacing(n: nat) -> nat
    decreases n,
{
    if n < 0x20_0000_0000_0000 {
        1
    } else {
        2 * double_spacing(n / 2)
    }
}

/// The double precision number nearest to `n`, a tie to the even one.
pub open spec fn nearest_double(n: nat) -> nat {
    rounded_quotient(n, double_spacing(n)) * double_spacing(n)
}

/// `n` in units of `unit`, counted in hundredths: the nearest double precision
/// number to `n`, divided and rounded to two decimals.
pub open spec fn hundredths(n: nat, unit: nat) -> nat {
    rounded_quotient(nearest_double(n) * 100, unit)
}

/// A number of hundredths with two decimals.
pub open spec fn two_decimals(h: nat) -> Seq<char> {
    numbers::decimal(h / 100) + seq!['.'] + numbers::padded(numbers::decimal(h % 100), 2, '0')
}

/// The text of a size in bytes.
pub open spec fn size_text(size: nat) -> Seq<char> {
    if size < KB {
        numbers::decimal(size) + "B"@
    } else if size < MB {
        two_decimals(hundredths(size, KB as nat)) + "KB"@
    } else if size < GB {
        two_decimals(hundredths(size, MB as nat)) + "MB"@
    } else {
        two_decimals(hundredths(size, GB as nat)) + "GB"@
    }
}

/// The spacing is positive, no more than the number itself, and one below 2^53.
proof fn lemma_spacing(n: nat)
    ensures
        1 <= double_spacing(n),
        n >= 1 ==> double_spacing(n) <= n,
    decreases n,
{
    if n >= 0x20_0000_0000_0000 {
        lemma_spacing(n / 2);
    }
}

/// Up to 2^53 a number is its own nearest double precision number.
proof fn lemma_small_double(n: nat)
    requires
        n < 0x20_0000_0000_0000,
    ensures
        nearest_double(n) == n,
{
    let spacing = double_spacing(n);
    assert(n / 1 == n);
    assert(n % 1 == 0);
    assert(rounded_quotient(n, spacing) == n);
    assert(n * spacing == n) by (nonlinear_arith)
        requires
            spacing == 1,
    ;
}

/// A quotient is no more than what is divided.
proof fn lemma_rounded_bound(a: nat, b: nat)
    requires
        b >= 1,
    ensures
        rounded_quotient(a, b) * b <= a + b,
        rounded_quotient(a, b) <= a + 1,
{
    let q = a / b;
    let r = a % b;
    assert(q * b + r == a && 0 <= r < b && q <= a) by (nonlinear_arith)
        requires
            b >= 1,
            q == a / b,
            r == a % b,
    ;
    assert((q + 1) * b == q * b + b) by (nonlinear_arith);
}

/// Divides and rounds to the nearest integer, a tie to the even one.
fn round_quotient(a: u128, b: u128) -> (r: u128)
    requires
        b >= 1,
        a < u128::MAX,
        b < 0x1_0000_0000_0000_0000_0000,
    ensures
        r == rounded_quotient(a as nat, b as nat),
{
    let q: u128 = a / b;
    let rest: u128 = a % b;
    proof {
        assert(q <= a && rest < b) by (nonlinear_arith)
            requires
                b >= 1,
                q == a / b,
                rest == a % b,
        ;
    }
    if 2 * rest < b || (2 * rest == b && q % 2 == 0) {
        q
    } else {
        q + 1
    }
}

/// The distance between double precision numbers at `n`.
fn spacing_at(n: u64) -> (r: u64)
    ensures
        r == double_spacing(n as nat),
    decreases n,
{
    if n < 0x20_0000_0000_0000 {
        1
    } else {
        proof {
            lemma_spacing((n / 2) as nat);
        }
        2 * spacing_at(n / 2)
    }
}

/// `n` in hundredths of `unit`.
fn hundredths_of(n: u64, unit: u64) -> (r: u128)
    requires
        unit >= 1,
    ensures
        r == hundredths(n as nat, unit as nat),
        r <= (n + double_spacing(n as nat)) * 100 + 1,
{
    let spacing = spacing_at(n);
    proof {
        lemma_spacing(n as nat);
        lemma_rounded_bound(n as nat, spacing as nat);
    }
    let count: u128 = round_quotient(n as u128, spacing as u128);
    proof {
        assert(count * spacing <= n + spacing);
    }
    let double: u128 = count * (spacing as u128);
    proof {
        lemma_rounded_bound((double * 100) as nat, unit as nat);
    }
    round_quotient(double * 100, unit as u128)
}

/// Writes hundredths with two decimals.
fn write_hundredths(h: u128) -> (r: Vec<char>)
    requires
        h / 100 <= u64::MAX,
    ensures
        r@ == two_decimals(h as nat),
{
    let mut out = numbers::decimal_of((h / 100) as u64);
    out.push('.');
    let decimals = numbers::decimal_of((h % 100) as u64);
    let two = numbers::pad_left(&decimals, 2, '0');
    text::extend(&mut out, &two);
    assert(out@ =~= two_decimals(h as nat));
    out
}

/// Writes a size in bytes for people.
pub fn format_size(size: u64) -> (r: String)
    ensures
        r@ == size_text(size as nat),
{
    let mut out: Vec<char>;
    let suffix: Vec<char>;
    if size < KB {
        out = numbers::decimal_of(size);
        suffix = text::chars_of("B");
    } else if size < MB {
        let h = hundredths_of(size, KB);
        out = write_hundredths(h);
        suffix = text::chars_of("KB");
    } else if size < GB {
        let h = hundredths_of(size, MB);
        out = write_hundredths(h);
        suffix = text::chars_of("MB");
    } else {
        let h = hundredths_of(size, GB);
        proof {
            lemma_gigabyte_bound(size);
        }
        out = write_hundredths(h);
        suffix = text::chars_of("GB");
    }
    text::extend(&mut out, &suffix);
    text::string_of(&out)
}

/// The number of gigabytes in a 64-bit size is small.
proof fn lemma_gigabyte_bound(size: u64)
    ensures
        hundredths(size as nat, GB as nat) / 100 <= u64::MAX,
{
    let n = size as nat;
    lemma_spacing(n);
    lemma_rounded_bound(n, double_spacing(n));
    let d = nearest_double(n);
    lemma_rounded_bound(d * 100, GB as nat);
    assert(hundredths(n, GB as nat) * GB <= d * 100 + GB);
}

/// Below 2^53 bytes the written hundredths are the nearest ones: they are at most
/// half a hundredth away.
pub proof fn law_hundredths_are_nearest(n: nat, unit: nat)
    requires
        unit >= 1,
        n < 0x20_0000_0000_0000,
    ensures
        2 * (hundredths(n, unit) * unit) <= 2 * (100 * n) + unit,
        2 * (100 * n) <= 2 * (hundredths(n, unit) * unit) + unit,
{
    lemma_small_double(n);
    let a = n * 100;
    let q = a / unit;
    let r = a % unit;
    assert(q * unit + r == a && 0 <= r < unit) by (nonlinear_arith)
        requires
            unit >= 1,
            q == a / unit,
            r == a % unit,
    ;
    assert((q + 1) * unit == q * unit + unit) by (nonlinear_arith);
}

/// A whole number of units is written with two zeros.
pub proof fn law_whole_units(k: nat, unit: nat)
    requires
        unit >= 1,
        k * unit < 0x20_0000_0000_0000,
    ensures
        hundredths(k * unit, unit) == k * 100,
{
    lemma_small_double(k * unit);
    let a = k * unit * 100;
    assert(a == (k * 100) * unit) by (nonlinear_arith)
        requires
            a == k * unit * 100,
    ;
    assert(a / unit == k * 100 && a % unit == 0) by (nonlinear_arith)
        requires
            unit >= 1,
            a == (k * 100) * unit,
    ;
}

// ---------------------------------------------------------------------------
// Durations
// ---------------------------------------------------------------------------

/// The text of a duration of whole seconds and milliseconds.
pub open spec fn duration_text(total_secs: nat, subsec_millis: nat) -> Seq<char> {
    let hours = total_secs / 3600;
    let mins = (total_secs % 3600) / 60;
    let secs = total_secs % 60;
    if total_secs < 60 {
        numbers::decimal(total_secs) + "."@ + numbers::padded(
            numbers::decimal(subsec_millis / 10),
            2,
            '0',
        ) + "s"@
    } else if hours > 0 {
        numbers::decimal(hours) + "h "@ + numbers::decimal(mins) + "m "@ + numbers::decimal(secs)
            + "s"@
    } else {
        numbers::decimal(mins) + "m "@ + numbers::decimal(secs) + "s"@
    }
}

/// Appends the text of `s` to `v`.
pub fn append_text(v: &mut Vec<char>, s: &str)
    ensures
        final(v)@ == old(v)@ + s@,
{
    let more = text::chars_of(s);
    text::extend(v, &more);
}

/// Appends `n` in decimal to `v`.
pub fn append_number(v: &mut Vec<char>, n: u64)
    ensures
        final(v)@ == old(v)@ + numbers::decimal(n as nat),
{
    let more = numbers::decimal_of(n);
    text::extend(v, &more);
}

/// Writes a duration for people: its whole seconds, and the milliseconds beyond
/// them.
pub fn format_duration(total_secs: u64, subsec_millis: u32) -> (r: String)
    ensures
        r@ == duration_text(total_secs as nat, subsec_millis as nat),
{
    if total_secs < 60 {
        let mut out = numbers::decimal_of(total_secs);
        append_text(&mut out, ".");
        let centis = numbers::decimal_of((subsec_millis / 10) as u64);
        let two = numbers::pad_left(&centis, 2, '0');
        text::extend(&mut out, &two);
        append_text(&mut out, "s");
        return text::string_of(&out);
    }
    let hours: u64 = total_secs / 3600;
    let mins: u64 = (total_secs % 3600) / 60;
    let secs: u64 = total_secs % 60;
    if hours > 0 {
        let mut out = numbers::decimal_of(hours);
        append_text(&mut out, "h ");
        append_number(&mut out, mins);
        append_text(&mut out, "m ");
        append_number(&mut out, secs);
        append_text(&mut out, "s");
        text::string_of(&out)
    } else {
        let mut out = numbers::decimal_of(mins);
        append_text(&mut out, "m ");
        append_number(&mut out, secs);
        append_text(&mut out, "s");
        text::string_of(&out)
    }
}

/// The hours, minutes and seconds of a duration make it up, and the minutes and
/// seconds stay below sixty.
pub proof fn law_duration_parts(total_secs: nat)
    ensures
        total_secs == (total_secs / 3600) * 3600 + ((total_secs % 3600) / 60) * 60 + total_secs
            % 60,
        (total_secs % 3600) / 60 < 60,
        total_secs % 60 < 60,
{
}

// ---------------------------------------------------------------------------
// Remaining time
// ---------------------------------------------------------------------------

/// The seconds that the rest of a transfer takes at a speed, rounded up; nothing
/// where nothing moves or nothing is left.
pub open spec fn eta(total: nat, completed: nat, speed_bps: nat) -> Option<nat> {
    if speed_bps == 0 || completed >= total {
        None
    } else {
        Some(((total - completed + speed_bps - 1) / (speed_bps as int)) as nat)
    }
}

/// Remaining seconds at the given speed: what is left divided by the speed,
/// rounded up.
pub fn eta_seconds(total: u64, completed: u64, speed_bps: u64) -> (r: Option<u64>)
    ensures
        match r {
            Some(secs) => eta(total as nat, completed as nat, speed_bps as nat) == Some(
                secs as nat,
            ),
            None => eta(total as nat, completed as nat, speed_bps as nat) is None,
        },
{
    if speed_bps == 0 || completed >= total {
        return None;
    }
    let left: u64 = total - completed;
    let q: u64 = left / speed_bps;
    let rest: u64 = left % speed_bps;
    proof {
        let s = speed_bps as int;
        assert(q * s + rest == left && rest < s) by (nonlinear_arith)
            requires
                s >= 1,
                s == speed_bps,
                q == left / speed_bps,
                rest == left % speed_bps,
        ;
        assert(rest == 0 ==> (left + s - 1) / s == q) by (nonlinear_arith)
            requires
                s >= 1,
                q * s + rest == left,
        ;
        assert(rest > 0 ==> (left + s - 1) / s == q + 1) by (nonlinear_arith)
            requires
                s >= 1,
                q * s + rest == left,
                rest < s,
        ;
        assert(rest > 0 ==> q < left) by (nonlinear_arith)
            requires
                s >= 1,
                q * s + rest == left,
                q >= 0,
        ;
    }
    if rest == 0 {
        Some(q)
    } else {
        Some(q + 1)
    }
}

/// The remaining seconds are enough at the given speed, and one less is not.
pub proof fn law_eta_is_least(total: nat, completed: nat, speed_bps: nat)
    requires
        speed_bps > 0,
        completed < total,
    ensures
        eta(total, completed, speed_bps) matches Some(secs) && secs >= 1 && (secs - 1) * speed_bps
            < total - completed <= secs * speed_bps,
{
    let left = total - completed;
    let s = speed_bps as int;
    let k = (left + s - 1) / s;
    assert(k >= 1 && (k - 1) * s < left && left <= k * s) by (nonlinear_arith)
        requires
            s >= 1,
            left >= 1,
            k == (left + s - 1) / s,
    ;
}

/// The text for the remaining time; empty where there is none.
pub open spec fn eta_text(total: nat, completed: nat, speed_bps: nat) -> Seq<char> {
    match eta(total, completed, speed_bps) {
        Some(secs) => "(ETA: "@ + duration_text(secs, 0) + ")"@,
        None => Seq::empty(),
    }
}

/// Writes the remaining time of a transfer.
pub fn format_progress_eta_message(total: u64, completed: u64, speed_bps: u64) -> (r: String)
    ensures
        r@ == eta_text(total as nat, completed as nat, speed_bps as nat),
{
    match eta_seconds(total, completed, speed_bps) {
        Some(secs) => {
            let mut out = text::chars_of("(ETA: ");
            let duration = format_duration(secs, 0);
            append_text(&mut out, duration.as_str());
            append_text(&mut out, ")");
            text::string_of(&out)
        },
        None => String::new(),
    }
}

// ---------------------------------------------------------------------------
// How numbers are shown
// ---------------------------------------------------------------------------

/// A size is shown in the largest unit that it reaches: bytes as they are, and from
/// 1024 of one unit on in the next, with two decimals.
pub proof fn law_sizes_are_shown_in_their_unit(size: nat)
    ensures
        size < 1024 ==> size_text(size) == numbers::decimal(size) + seq!['B'],
        1024 <= size < 1024 * 1024 ==> size_text(size) == two_decimals(hundredths(size, 1024))
            + seq!['K', 'B'],
        1024 * 1024 <= size < 1024 * 1024 * 1024 ==> size_text(size) == two_decimals(
            hundredths(size, 1024 * 1024),
        ) + seq!['M', 'B'],
        1024 * 1024 * 1024 <= size ==> size_text(size) == two_decimals(
            hundredths(size, 1024 * 1024 * 1024),
        ) + seq!['G', 'B'],
{
    reveal_strlit("B");
    reveal_strlit("KB");
    reveal_strlit("MB");
    reveal_strlit("GB");
    assert("B"@ =~= seq!['B']);
    assert("KB"@ =~= seq!['K', 'B']);
    assert("MB"@ =~= seq!['M', 'B']);
    assert("GB"@ =~= seq!['G', 'B']);
}

/// Two decimals show the hundredths: the whole part, a dot and two digits.
pub proof fn law_two_decimals_show_hundredths(h: nat)
    ensures
        two_decimals(h) == numbers::decimal(h / 100) + seq![
            '.',
            numbers::digit_char(h % 100 / 10),
            numbers::digit_char(h % 10),
        ],
{
    let r = h % 100;
    reveal_with_fuel(numbers::decimal, 2);
    if r < 10 {
        assert(numbers::padded(numbers::decimal(r), 2, '0') =~= seq![
            numbers::digit_char(0),
            numbers::digit_char(r),
        ]);
    } else {
        assert(numbers::padded(numbers::decimal(r), 2, '0') =~= seq![
            numbers::digit_char(r / 10),
            numbers::digit_char(r % 10),
        ]);
    }
    assert(two_decimals(h) =~= numbers::decimal(h / 100) + seq![
        '.',
        numbers::digit_char(h % 100 / 10),
        numbers::digit_char(h % 10),
    ]);
}

/// A duration below a minute is shown in seconds and hundredths, one below an hour in
/// minutes and seconds, and a longer one in hours, minutes and seconds.
pub proof fn law_durations_are_shown_in_their_units(hours: nat, mins: nat, secs: nat, millis: nat)
    requires
        mins < 60,
        secs < 60,
        millis < 1000,
    ensures
        ({
            let shown = duration_text(hours * 3600 + mins * 60 + secs, millis);
            if hours > 0 {
                shown == numbers::decimal(hours) + seq!['h', ' '] + numbers::decimal(mins) + seq![
                    'm',
                    ' ',
                ] + numbers::decimal(secs) + seq!['s']
            } else if mins > 0 {
                shown == numbers::decimal(mins) + seq!['m', ' '] + numbers::decimal(secs) + seq!['s']
            } else {
                shown == numbers::decimal(secs) + seq![
                    '.',
                    numbers::digit_char(millis / 100),
                    numbers::digit_char(millis / 10 % 10),
                    's',
                ]
            }
        }),
{
    reveal_strlit("h ");
    reveal_strlit("m ");
    reveal_strlit("s");
    reveal_strlit(".");
    assert("h "@ =~= seq!['h', ' ']);
    assert("m "@ =~= seq!['m', ' ']);
    assert("s"@ =~= seq!['s']);
    assert("."@ =~= seq!['.']);
    let total = hours * 3600 + mins * 60 + secs;
    assert(total / 3600 == hours);
    assert(total % 3600 == mins * 60 + secs);
    assert(total % 3600 / 60 == mins);
    assert(total % 60 == secs);
    if hours == 0 && mins == 0 {
        let c = millis / 10;
        reveal_with_fuel(numbers::decimal, 2);
        assert(numbers::padded(numbers::decimal(c), 2, '0') =~= seq![
            numbers::digit_char(millis / 100),
            numbers::digit_char(millis / 10 % 10),
        ]);
        assert(duration_text(total, millis) =~= numbers::decimal(secs) + seq![
            '.',
            numbers::digit_char(millis / 100),
            numbers::digit_char(millis / 10 % 10),
            's',
        ]);
    }
}

/// The remaining time is told exactly where something is left and something moves.
pub proof fn law_remaining_time_is_told_where_known(total: nat, completed: nat, speed_bps: nat)
    ensures
        eta(total, completed, speed_bps) is Some <==> completed < total && speed_bps > 0,
        eta_text(total, completed, speed_bps).len() == 0 <==> !(completed < total && speed_bps > 0),
        completed < total && speed_bps > 0 ==> eta_text(total, completed, speed_bps) == seq![
            '(',
            'E',
            'T',
            'A',
            ':',
            ' ',
        ] + duration_text(eta(total, completed, speed_bps)->0, 0) + seq![')'],
{
    reveal_strlit("(ETA: ");
    reveal_strlit(")");
    assert("(ETA: "@ =~= seq!['(', 'E', 'T', 'A', ':', ' ']);
    assert(")"@ =~= seq![')']);
}

/// A size that lies in the middle between two hundredths is written with the even one.
pub proof fn law_ties_go_to_the_even_hundredth(n: nat, unit: nat)
    requires
        unit >= 1,
        n < 0x20_0000_0000_0000,
        2 * ((100 * n) % unit) == unit,
    ensures
        hundredths(n, unit) % 2 == 0,
{
    lemma_small_double(n);
}

/// Large sizes keep 53 significant bits: measured in the distance between neighbouring
/// numbers, they have neither more nor fewer.
pub proof fn law_large_sizes_keep_their_leading_bits(n: nat)
    requires
        n >= 0x20_0000_0000_0000,
    ensures
        0x10_0000_0000_0000 <= n / double_spacing(n) < 0x20_0000_0000_0000,
    decreases n,
{
    let half = n / 2;
    let s = double_spacing(half);
    lemma_spacing(half);
    assert(n / (2 * s) == (n / 2) / s) by {
        vstd::arithmetic::div_mod::lemma_div_denominator(n as int, 2, s as int);
    }
    if half >= 0x20_0000_0000_0000 {
        law_large_sizes_keep_their_leading_bits(half);
    } else {
        assert(half / 1 == half);
    }
}

} // verus!
