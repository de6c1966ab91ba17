//! What holds of times as they are typed and shown.

use vstd::prelude::*;

use crate::text;
use crate::time;
use crate::ui;

verus! {

/// The digits of a number are read as that number.
proof fn lemma_digits_are_read(n: nat, rest: Seq<char>)
    ensures
        time::group_seconds(text::decimal(n) + rest, None) == time::group_seconds(rest, Some(n)),
    decreases n,
{
    let last = text::digit(n % 10);
    if n < 10 {
        let whole = text::decimal(n) + rest;
        assert(whole[0] == last);
        assert(whole.drop_first() =~= rest);
    } else {
        let tail = seq![last] + rest;
        assert(text::decimal(n) + rest =~= text::decimal(n / 10) + tail);
        lemma_digits_are_read(n / 10, tail);
        assert(tail[0] == last);
        assert(tail.drop_first() =~= rest);
        assert(10 * (n / 10) + n % 10 == n);
    }
}

/// What begins and ends with something else than white space has none to be left out.
proof fn lemma_nothing_to_trim(s: Seq<char>)
    requires
        s.len() > 0,
        !text::is_space(s[0]),
        !text::is_space(s.last()),
    ensures
        text::trim(s) == s,
{
}

proof fn lemma_count_and_unit(n: nat, unit: char, rest: Seq<char>)
    requires
        time::unit_seconds(unit) is Some,
    ensures
        time::group_seconds(text::decimal(n) + seq![unit] + rest, None) == match time::group_seconds(
            rest,
            None,
        ) {
            Some(more) => Some((n * time::unit_seconds(unit)->0 + more) as nat),
            None => None,
        },
{
    let tail = seq![unit] + rest;
    lemma_digits_are_read(n, tail);
    assert(text::decimal(n) + seq![unit] + rest =~= text::decimal(n) + tail);
    assert(tail[0] == unit);
    assert(tail.drop_first() =~= rest);
    assert(!('0' <= unit <= '9'));
}

/// A number with one unit stands for that many hours, minutes or seconds.
pub proof fn law_notation_of_one_unit(n: nat)
    ensures
        3600 * n <= u64::MAX ==> time::notation_seconds(text::decimal(n) + "h"@) == Some(3600 * n),
        60 * n <= u64::MAX ==> time::notation_seconds(text::decimal(n) + "m"@) == Some(60 * n),
        n <= u64::MAX ==> time::notation_seconds(text::decimal(n) + "s"@) == Some(n),
{
    reveal_strlit("h");
    reveal_strlit("m");
    reveal_strlit("s");
    assert("h"@ =~= seq!['h']);
    assert("m"@ =~= seq!['m']);
    assert("s"@ =~= seq!['s']);
    let end = Seq::<char>::empty();
    text::lemma_decimal_is_digits(n);
    lemma_count_and_unit(n, 'h', end);
    lemma_count_and_unit(n, 'm', end);
    lemma_count_and_unit(n, 's', end);
    let hours = text::decimal(n) + seq!['h'];
    let minutes = text::decimal(n) + seq!['m'];
    let secs = text::decimal(n) + seq!['s'];
    assert(hours + end =~= hours);
    assert(minutes + end =~= minutes);
    assert(secs + end =~= secs);
    assert('0' <= hours[0] <= '9');
    assert('0' <= minutes[0] <= '9');
    assert('0' <= secs[0] <= '9');
    lemma_nothing_to_trim(hours);
    lemma_nothing_to_trim(minutes);
    lemma_nothing_to_trim(secs);
}

/// Hours, minutes and seconds in one notation add up.
pub proof fn law_notation_adds_up(h: nat, m: nat, s: nat)
    requires
        3600 * h + 60 * m + s <= u64::MAX,
    ensures
        time::notation_seconds(
            text::decimal(h) + "h"@ + text::decimal(m) + "m"@ + text::decimal(s) + "s"@,
        ) == Some(3600 * h + 60 * m + s),
        time::notation_seconds(text::decimal(h) + "h"@ + text::decimal(m) + "m"@) == Some(
            3600 * h + 60 * m,
        ),
{
    reveal_strlit("h");
    reveal_strlit("m");
    reveal_strlit("s");
    assert("h"@ =~= seq!['h']);
    assert("m"@ =~= seq!['m']);
    assert("s"@ =~= seq!['s']);
    let end = Seq::<char>::empty();
    text::lemma_decimal_is_digits(h);
    let secs = text::decimal(s) + seq!['s'];
    lemma_count_and_unit(s, 's', end);
    assert(secs + end =~= secs);
    let minutes = text::decimal(m) + seq!['m'];
    lemma_count_and_unit(m, 'm', end);
    lemma_count_and_unit(m, 'm', secs);
    assert(minutes + end =~= minutes);
    let hours = text::decimal(h) + seq!['h'];
    lemma_count_and_unit(h, 'h', minutes);
    lemma_count_and_unit(h, 'h', minutes + secs);
    let two = hours + text::decimal(m) + seq!['m'];
    let three = two + text::decimal(s) + seq!['s'];
    assert(two =~= hours + minutes);
    assert(three =~= hours + (minutes + secs));
    assert('0' <= hours[0] <= '9');
    assert(two[0] == hours[0] && three[0] == hours[0]);
    lemma_nothing_to_trim(two);
    lemma_nothing_to_trim(three);
}

/// A number of two digits, as they are shown.
pub open spec fn tens_and_ones(n: nat) -> Seq<char> {
    seq![(48 + n / 10) as char, (48 + n % 10) as char]
}

proof fn lemma_two_digits(n: nat)
    requires
        n < 100,
    ensures
        text::two_digits(n) == tens_and_ones(n),
{
    reveal_with_fuel(text::decimal, 2);
    assert(text::two_digits(n) =~= tens_and_ones(n));
}

/// A place is shown as minutes and seconds, and from one hour on with the hours before them.
pub proof fn law_clock_tells_the_time(h: nat, m: nat, s: nat, rest: nat)
    requires
        h < 100,
        m < 60,
        s < 60,
        rest < 1_000_000_000,
    ensures
        ({
            let shown = ui::clock((3600 * h + 60 * m + s) * 1_000_000_000 + rest);
            let tail = tens_and_ones(m) + seq![':'] + tens_and_ones(s);
            shown == (if h == 0 {
                tail
            } else {
                tens_and_ones(h) + seq![':'] + tail
            })
        }),
{
    reveal_strlit(":");
    assert(":"@ =~= seq![':']);
    let total = 3600 * h + 60 * m + s;
    let place = total * 1_000_000_000 + rest;
    assert(place / 1_000_000_000 == total);
    assert(total / 3600 == h);
    assert((total % 3600) / 60 == m);
    assert(total % 60 == s);
    lemma_two_digits(h);
    lemma_two_digits(m);
    lemma_two_digits(s);
    let tail = tens_and_ones(m) + seq![':'] + tens_and_ones(s);
    assert(tens_and_ones(h) + seq![':'] + tens_and_ones(m) + seq![':'] + tens_and_ones(s)
        =~= tens_and_ones(h) + seq![':'] + tail);
}

proof fn lemma_stray_character(s: Seq<char>, number: Option<nat>, k: int)
    requires
        0 <= k < s.len(),
        !('0' <= s[k] <= '9'),
        s[k] != 'h' && s[k] != 'm' && s[k] != 's',
    ensures
        time::group_seconds(s, number) is None,
    decreases s.len(),
{
    if k > 0 {
        let rest = s.drop_first();
        assert(rest[k - 1] == s[k]);
        if '0' <= s[0] <= '9' {
            let so_far = match number {
                Some(n) => n,
                None => 0,
            };
            lemma_stray_character(rest, Some(10 * so_far + (s[0] as nat - 48) as nat), k - 1);
        } else {
            lemma_stray_character(rest, None, k - 1);
        }
    }
}

proof fn lemma_unit_is_missing(s: Seq<char>, number: Option<nat>)
    requires
        s.len() > 0,
        '0' <= s.last() <= '9',
    ensures
        time::group_seconds(s, number) is None,
    decreases s.len(),
{
    let rest = s.drop_first();
    if s.len() > 1 {
        assert(rest.last() == s.last());
        if '0' <= s[0] <= '9' {
            let so_far = match number {
                Some(n) => n,
                None => 0,
            };
            lemma_unit_is_missing(rest, Some(10 * so_far + (s[0] as nat - 48) as nat));
        } else {
            lemma_unit_is_missing(rest, None);
        }
    } else {
        reveal_with_fuel(time::group_seconds, 2);
        assert(rest =~= Seq::<char>::empty());
    }
}

/// A text is no notation of a time where it begins with a unit, ends without one, or holds anything
/// but digits and units; neither is white space alone.
pub proof fn law_other_texts_are_no_notation(s: Seq<char>, k: int)
    requires
        ({
            let typed = text::trim(s);
            ||| typed.len() == 0
            ||| typed[0] == 'h' || typed[0] == 'm' || typed[0] == 's'
            ||| '0' <= typed.last() <= '9'
            ||| 0 <= k < typed.len() && !('0' <= typed[k] <= '9') && typed[k] != 'h' && typed[k]
                != 'm' && typed[k] != 's'
        }),
    ensures
        time::notation_seconds(s) is None,
{
    let typed = text::trim(s);
    if typed.len() > 0 {
        if '0' <= typed.last() <= '9' {
            lemma_unit_is_missing(typed, None);
        } else if 0 <= k < typed.len() && !('0' <= typed[k] <= '9') && typed[k] != 'h' && typed[k]
            != 'm' && typed[k] != 's' {
            lemma_stray_character(typed, None, k);
        }
    }
}

} // verus!
