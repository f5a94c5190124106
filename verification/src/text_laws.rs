//! What texts come out as: numerals, durations, trimmed texts, names, reports, the page, codes and
//! keys.

use crate::chance::{code_alphabet, is_room_code, spelled};
use crate::ids::{Uuid, hex_char, hex_digit_at, hyphenated};
use crate::report::{
    after_attempt, age, before_comma, cleaned, cooling, from_elsewhere, full_text, header_text,
    message_refusal, remembered, report_char, sender,
};
use crate::room_model::RoomModel;
use crate::site::{begins, latest, page_place, replaced};
use crate::store::{save_keys_texts, seat_key_text};
use crate::text::{
    at_most, decimal, digit_char, duration_words, grouped, is_control_char, is_space_char,
    printable, seated_name, trimmed,
};
use vstd::arithmetic::div_mod::{lemma_basic_div, lemma_div_denominator};
use vstd::arithmetic::power::{lemma_pow0, lemma_pow1, lemma_pow_adds, lemma_pow_positive, pow};
use vstd::prelude::*;

verus! {

/// What passes a filter is what is there and satisfies it.
pub proof fn lemma_filter_member<A>(s: Seq<A>, keeps: spec_fn(A) -> bool, x: A)
    ensures
        s.filter(keeps).contains(x) <==> s.contains(x) && keeps(x),
    decreases s.len(),
{
    reveal(Seq::filter);
    if s.len() > 0 {
        let rest = s.drop_last();
        let n = rest.len() as int;
        lemma_filter_member(rest, keeps, x);
        let before = rest.filter(keeps);
        let all = s.filter(keeps);
        assert(s[n] == s.last());
        if before.contains(x) {
            let k = choose|k: int| 0 <= k < before.len() && before[k] == x;
            assert(all[k] == x);
        }
        if all.contains(x) {
            let k = choose|k: int| 0 <= k < all.len() && all[k] == x;
            if k < before.len() {
                assert(before[k] == x);
            }
        }
        if rest.contains(x) {
            let k = choose|k: int| 0 <= k < rest.len() && rest[k] == x;
            assert(s[k] == x);
        }
        if s.contains(x) {
            let k = choose|k: int| 0 <= k < s.len() && s[k] == x;
            if k < n {
                assert(rest[k] == x);
            } else if keeps(x) {
                assert(all[before.len() as int] == x);
            }
        }
    }
}

// ---------------------------------------------------------------------------
// Numerals
// ---------------------------------------------------------------------------

/// The number that a row of decimal digits stands for.
pub open spec fn value_of(s: Seq<char>) -> int
    decreases s.len(),
{
    if s.len() == 0 {
        0
    } else {
        10 * value_of(s.drop_last()) + (s.last() as int - '0' as int)
    }
}

/// A numeral is made of digits, stands for its number, and starts with no zero but that of 0.
pub proof fn numerals_are_read_back(n: nat)
    ensures
        decimal(n).len() > 0,
        forall|k: int| 0 <= k < decimal(n).len() ==> '0' <= #[trigger] decimal(n)[k] <= '9',
        value_of(decimal(n)) == n,
        decimal(n)[0] == '0' <==> n == 0,
    decreases n,
{
    if n < 10 {
        assert(decimal(n).drop_last() =~= seq![]);
        assert(digit_char(n) as int == n + 48);
        assert(value_of(decimal(n)) == 10 * value_of(seq![]) + n);
    } else {
        numerals_are_read_back(n / 10);
        assert(decimal(n).drop_last() =~= decimal(n / 10));
        assert(digit_char(n % 10) as int == n % 10 + 48);
    }
}

/// In a point total every fourth character from the right is a comma, and no other one is.
pub proof fn commas_stand_every_three_digits(n: nat, k: int)
    requires
        0 <= k < grouped(n).len(),
    ensures
        grouped(n)[grouped(n).len() - 1 - k] == ',' <==> k % 4 == 3,
        grouped(n)[0] != ',',
    decreases n,
{
    if n < 1000 {
        numerals_are_read_back(n);
        assert(decimal(n).len() <= 3) by {
            reveal_with_fuel(decimal, 4);
        }
        assert('0' <= decimal(n)[decimal(n).len() - 1 - k] <= '9');
    } else {
        let head = grouped(n / 1000);
        assert(grouped(n).len() == head.len() + 4);
        assert(digit_char(n / 100 % 10) as int == n / 100 % 10 + 48);
        assert(digit_char(n / 10 % 10) as int == n / 10 % 10 + 48);
        assert(digit_char(n % 10) as int == n % 10 + 48);
        lemma_grouped_some(n / 1000);
        if k >= 4 {
            commas_stand_every_three_digits(n / 1000, k - 4);
            assert(grouped(n)[grouped(n).len() - 1 - k] == head[head.len() - 1 - (k - 4)]);
        } else {
            commas_stand_every_three_digits(n / 1000, 0);
        }
        assert(grouped(n)[0] == head[0]);
    }
}

proof fn lemma_grouped_some(n: nat)
    ensures
        grouped(n).len() > 0,
    decreases n,
{
    if n < 1000 {
        numerals_are_read_back(n);
    } else {
        lemma_grouped_some(n / 1000);
    }
}

/// A time of whole minutes is told in minutes, one of less than a minute in seconds, and one of
/// them alone in the singular.
pub proof fn durations_are_told_in_minutes(count: nat)
    ensures
        count >= 2 ==> duration_words(60 * count) == decimal(count) + " minutes"@,
        2 <= count < 60 ==> duration_words(count) == decimal(count) + " seconds"@,
        duration_words(1) == "1 second"@,
        duration_words(60) == "1 minute"@,
{
    assert((60 * count) / 60 == count);
}

// ---------------------------------------------------------------------------
// Cleaning
// ---------------------------------------------------------------------------

/// A trimmed text is what lies between two places: nothing but white space lies outside, and what
/// is left neither starts nor ends with any.
pub proof fn trimming_takes_the_ends(s: Seq<char>) -> (ends: (int, int))
    ensures
        ({
            let (lo, hi) = ends;
            &&& 0 <= lo <= hi <= s.len()
            &&& trimmed(s) == s.subrange(lo, hi)
            &&& forall|k: int| 0 <= k < lo ==> is_space_char(#[trigger] s[k])
            &&& forall|k: int| hi <= k < s.len() ==> is_space_char(#[trigger] s[k])
            &&& lo < hi ==> !is_space_char(s[lo]) && !is_space_char(s[hi - 1])
        }),
    decreases s.len(),
{
    if s.len() == 0 {
        assert(s.subrange(0, 0) =~= s);
        (0, 0)
    } else if is_space_char(s.first()) {
        let rest = s.drop_first();
        let (lo, hi) = trimming_takes_the_ends(rest);
        assert(rest.subrange(lo, hi) =~= s.subrange(lo + 1, hi + 1));
        assert forall|k: int| 0 <= k < s.len() && (k < lo + 1 || hi + 1 <= k) implies is_space_char(
            #[trigger] s[k],
        ) by {
            if k > 0 {
                assert(s[k] == rest[k - 1]);
            }
        }
        (lo + 1, hi + 1)
    } else if is_space_char(s.last()) {
        let rest = s.drop_last();
        let (lo, hi) = trimming_takes_the_ends(rest);
        assert(rest.subrange(lo, hi) =~= s.subrange(lo, hi));
        assert forall|k: int| 0 <= k < s.len() && (k < lo || hi <= k) implies is_space_char(
            #[trigger] s[k],
        ) by {
            if k < rest.len() {
                assert(s[k] == rest[k]);
            }
        }
        (lo, hi)
    } else {
        assert(s.subrange(0, s.len() as int) =~= s);
        (0, s.len() as int)
    }
}

/// A name has one to twenty characters, none of them a control character, and neither starts nor
/// ends with white space. One that was asked for like that stays as it is.
pub proof fn names_are_clean(raw: Seq<char>)
    ensures
        ({
            let name = seated_name(raw);
            &&& 1 <= name.len() <= 20
            &&& forall|k: int| 0 <= k < name.len() ==> !is_control_char(#[trigger] name[k])
            &&& !is_space_char(name.first())
            &&& !is_space_char(name.last())
            &&& forall|k: int|
                0 <= k < name.len() && name != "Player"@ ==> raw.contains(#[trigger] name[k])
        }),
        ({
            &&& 1 <= raw.len() <= 20
            &&& forall|k: int| 0 <= k < raw.len() ==> !is_control_char(#[trigger] raw[k])
            &&& !is_space_char(raw.first())
            &&& !is_space_char(raw.last())
        }) ==> seated_name(raw) == raw,
{
    reveal_strlit("Player");
    let plain = |c: char| !is_control_char(c);
    let kept = printable(raw);
    assert(kept == raw.filter(plain));
    let cut = at_most(kept, 20);
    let (lo, hi) = trimming_takes_the_ends(cut);
    let name = trimmed(cut);
    assert forall|k: int| 0 <= k < name.len() implies !is_control_char(#[trigger] name[k])
        && raw.contains(name[k]) by {
        assert(name[k] == kept[lo + k]);
        assert(kept.contains(name[k]));
        lemma_filter_member(raw, plain, name[k]);
    }
    if forall|k: int| 0 <= k < raw.len() ==> !is_control_char(#[trigger] raw[k]) {
        lemma_all_kept(raw, plain);
    }
}

proof fn lemma_all_kept(s: Seq<char>, keeps: spec_fn(char) -> bool)
    requires
        forall|k: int| 0 <= k < s.len() ==> keeps(#[trigger] s[k]),
    ensures
        s.filter(keeps) == s,
    decreases s.len(),
{
    reveal(Seq::filter);
    if s.len() > 0 {
        let rest = s.drop_last();
        assert forall|k: int| 0 <= k < rest.len() implies keeps(#[trigger] rest[k]) by {
            assert(rest[k] == s[k]);
        }
        lemma_all_kept(rest, keeps);
        assert(keeps(s[s.len() - 1]));
        assert(s.filter(keeps) =~= s);
    } else {
        assert(s.filter(keeps) =~= s);
    }
}

// ---------------------------------------------------------------------------
// Reports
// ---------------------------------------------------------------------------

/// A report is taken with 8 to 1,000 characters, counted without white space around it.
pub proof fn reports_have_a_length(raw: Seq<char>)
    ensures
        message_refusal(raw) is None <==> 8 <= cleaned(raw).len() <= 1_000,
        forall|k: int|
            0 <= k < cleaned(raw).len() ==> {
                let c = #[trigger] cleaned(raw)[k];
                raw.contains(c) && (c == '\n' || c == '\t' || !is_control_char(c))
            },
{
    let kept = raw.filter(report_char());
    let (lo, hi) = trimming_takes_the_ends(kept);
    assert forall|k: int| 0 <= k < cleaned(raw).len() implies {
        let c = #[trigger] cleaned(raw)[k];
        raw.contains(c) && (c == '\n' || c == '\t' || !is_control_char(c))
    } by {
        let c = cleaned(raw)[k];
        assert(c == kept[lo + k]);
        assert(kept.contains(c));
        lemma_filter_member(raw, report_char(), c);
    }
}

/// What is passed on has at most 1,024 characters.
pub proof fn reports_are_clipped(
    message: Seq<char>,
    name: Seq<char>,
    code: Seq<char>,
    phase: Seq<char>,
    url: Seq<char>,
    user_agent: Seq<char>,
)
    ensures
        full_text(message, name, code, phase, url, user_agent).len() <= 1_024,
{
}

/// Whoever has had a report taken has to wait for a minute from then on, and no longer. Whoever is
/// turned down waits no longer than before, and nobody waits for somebody else.
pub proof fn reports_are_a_minute_apart(
    seen: Seq<(Seq<char>, u128)>,
    ip: Seq<char>,
    other: Seq<char>,
    now: u128,
    later: u128,
)
    requires
        now <= later,
    ensures
        ({
            let after = after_attempt(seen, ip, now);
            &&& !cooling(seen, ip, now) ==> (cooling(after, ip, later) <==> later - now
                < 60_000_000_000)
            &&& cooling(seen, ip, now) ==> (cooling(after, ip, later) <==> cooling(seen, ip, later))
            &&& other != ip ==> (cooling(after, other, later) <==> cooling(seen, other, later))
        }),
{
    let kept = seen.filter(remembered(now));
    let others = kept.filter(from_elsewhere(ip));
    let after = after_attempt(seen, ip, now);
    assert forall|e: (Seq<char>, u128)| #[trigger] kept.contains(e) <==> seen.contains(e) && age(
        e.1,
        now,
    ) < 3_600_000_000_000 by {
        lemma_filter_member(seen, remembered(now), e);
    }
    assert forall|e: (Seq<char>, u128)| #[trigger] others.contains(e) <==> kept.contains(e) && e.0
        != ip by {
        lemma_filter_member(kept, from_elsewhere(ip), e);
    }
    lemma_cooling(seen, ip, later);
    lemma_cooling(seen, other, later);
    lemma_cooling(kept, ip, later);
    lemma_cooling(kept, other, later);
    lemma_cooling(others, ip, later);
    lemma_cooling(others, other, later);
    lemma_cooling(after, ip, later);
    lemma_cooling(after, other, later);
    if !cooling(seen, ip, now) {
        assert forall|e: (Seq<char>, u128)| #[trigger] after.contains(e) <==> others.contains(e)
            || e == (ip, now) by {
            let n = others.len() as int;
            assert(after[n] == (ip, now));
            if others.contains(e) {
                let k = choose|k: int| 0 <= k < others.len() && others[k] == e;
                assert(after[k] == e);
            }
            if after.contains(e) {
                let k = choose|k: int| 0 <= k < after.len() && after[k] == e;
                if k < n {
                    assert(others[k] == e);
                }
            }
        }
        if cooling(after, ip, later) {
            let e = choose|e: (Seq<char>, u128)| #[trigger]
                after.contains(e) && e.0 == ip && age(e.1, later) < 60_000_000_000;
            assert(!others.contains(e));
        }
        assert(after.contains((ip, now)));
    }
    assert(age(now, later) == later - now);
    assert forall|e: (Seq<char>, u128)| age(e.1, now) <= #[trigger] age(e.1, later) by {}
    if other != ip {
        if cooling(after, other, later) {
            let e = choose|e: (Seq<char>, u128)| #[trigger]
                after.contains(e) && e.0 == other && age(e.1, later) < 60_000_000_000;
            assert(kept.contains(e)) by {
                assert(e != (ip, now));
                if !cooling(seen, ip, now) {
                    assert(others.contains(e));
                }
            }
            assert(seen.contains(e));
        }
        if cooling(seen, other, later) {
            let e = choose|e: (Seq<char>, u128)| #[trigger]
                seen.contains(e) && e.0 == other && age(e.1, later) < 60_000_000_000;
            assert(kept.contains(e));
            if !cooling(seen, ip, now) {
                assert(others.contains(e));
            }
            assert(after.contains(e));
        }
    }
    if cooling(seen, ip, now) && cooling(seen, ip, later) {
        let e = choose|e: (Seq<char>, u128)| #[trigger]
            seen.contains(e) && e.0 == ip && age(e.1, later) < 60_000_000_000;
        assert(kept.contains(e));
    }
}

proof fn lemma_cooling(seen: Seq<(Seq<char>, u128)>, ip: Seq<char>, now: u128)
    ensures
        cooling(seen, ip, now) <==> exists|e: (Seq<char>, u128)| #[trigger]
            seen.contains(e) && e.0 == ip && age(e.1, now) < 60_000_000_000,
{
    if cooling(seen, ip, now) {
        let i = choose|i: int|
            0 <= i < seen.len() && (#[trigger] seen[i]).0 == ip && age(seen[i].1, now)
                < 60_000_000_000;
        assert(seen.contains(seen[i]));
    }
    if exists|e: (Seq<char>, u128)| #[trigger]
        seen.contains(e) && e.0 == ip && age(e.1, now) < 60_000_000_000 {
        let e = choose|e: (Seq<char>, u128)| #[trigger]
            seen.contains(e) && e.0 == ip && age(e.1, now) < 60_000_000_000;
        let i = choose|i: int| 0 <= i < seen.len() && seen[i] == e;
        assert(seen[i].0 == ip);
    }
}

/// The part before the first comma is a start of the text without a comma, and a comma or nothing
/// follows.
pub proof fn what_stands_before_a_comma(s: Seq<char>)
    ensures
        ({
            let n = before_comma(s).len();
            &&& n <= s.len()
            &&& before_comma(s) == s.take(n as int)
            &&& forall|k: int| 0 <= k < n ==> #[trigger] s[k] != ','
            &&& n < s.len() ==> s[n as int] == ','
        }),
    decreases s.len(),
{
    let head = before_comma(s);
    if s.len() == 0 || s.first() == ',' {
        assert(head =~= s.take(0));
    } else {
        let rest = s.drop_first();
        what_stands_before_a_comma(rest);
        let n = before_comma(rest).len() as int;
        assert(head =~= s.take(n + 1));
        assert forall|k: int| 0 <= k < n + 1 implies #[trigger] s[k] != ',' by {
            if k > 0 {
                assert(s[k] == rest[k - 1]);
            }
        }
    }
}

/// A report comes from the first address that the proxy names, and else from the peer. A header
/// that is there but cannot be read is not made up for by the other one.
pub proof fn where_reports_come_from(
    first: Option<Seq<u8>>,
    second: Option<Seq<u8>>,
    address: Seq<char>,
    peer: Seq<char>,
)
    ensures
        first is None && second is None ==> sender(first, second, peer) == peer,
        first is Some && header_text(first->0) is None ==> sender(first, second, peer) == peer,
        first is None && second is Some && header_text(second->0) is None ==> sender(
            first,
            second,
            peer,
        ) == peer,
        ({
            &&& address.len() > 0
            &&& !is_space_char(address.first())
            &&& !is_space_char(address.last())
            &&& !address.contains(',')
        }) ==> {
            &&& first is Some && header_text(first->0) == Some(address) ==> sender(
                first,
                second,
                peer,
            ) == address
            &&& first is None && second is Some && header_text(second->0) == Some(address)
                ==> sender(first, second, peer) == address
        },
{
    if !address.contains(',') {
        what_stands_before_a_comma(address);
        let n = before_comma(address).len() as int;
        if n < address.len() {
            assert(address.contains(address[n]));
        }
        assert(before_comma(address) =~= address);
    }
}

// ---------------------------------------------------------------------------
// The page
// ---------------------------------------------------------------------------

/// The pattern does not begin at any place of the text before `n`.
pub open spec fn absent_before(s: Seq<char>, from: Seq<char>, n: int) -> bool {
    forall|k: int| 0 <= k < n ==> !begins(#[trigger] s.skip(k), from)
}

/// Up to its first occurrence a text stays as it is; what is replaced gives way to the other text,
/// and what follows is treated alike. Where the pattern does not occur nothing changes.
pub proof fn what_replacing_does(s: Seq<char>, from: Seq<char>, to: Seq<char>, n: int)
    requires
        from.len() > 0,
        0 <= n <= s.len(),
        absent_before(s, from, n),
    ensures
        n == s.len() ==> replaced(s, from, to) == s,
        n < s.len() && begins(s.skip(n), from) ==> replaced(s, from, to) == s.take(n) + to
            + replaced(s.skip(n + from.len()), from, to),
    decreases n,
{
    if n == 0 {
        assert(s.skip(0) =~= s);
        assert(s.take(0) + to =~= to);
        if s.len() == 0 {
            assert(replaced(s, from, to) =~= s);
        }
    } else {
        let rest = s.drop_first();
        assert(s.skip(0) =~= s);
        assert(!begins(s.skip(0), from));
        assert forall|k: int| 0 <= k < n - 1 implies !begins(#[trigger] rest.skip(k), from) by {
            assert(rest.skip(k) =~= s.skip(k + 1));
        }
        what_replacing_does(rest, from, to, n - 1);
        assert(rest.skip(n - 1) =~= s.skip(n));
        assert(seq![s.first()] + rest =~= s);
        if n < s.len() && begins(s.skip(n), from) {
            assert(rest.skip(n - 1 + from.len()) =~= s.skip(n + from.len()));
            assert(seq![s.first()] + rest.take(n - 1) =~= s.take(n));
            assert(seq![s.first()] + (rest.take(n - 1) + to + replaced(
                s.skip(n + from.len()),
                from,
                to,
            )) =~= s.take(n) + to + replaced(s.skip(n + from.len()), from, to));
        }
    }
}

/// The latest time is one of the times and none is later; it is zero where there is none.
pub proof fn which_time_is_the_latest(times: Seq<Option<u64>>)
    ensures
        forall|i: int|
            0 <= i < times.len() ==> ((#[trigger] times[i]) matches Some(t) ==> t <= latest(times)),
        latest(times) == 0 || times.contains(Some(latest(times))),
    decreases times.len(),
{
    if times.len() > 0 {
        let rest = times.drop_last();
        let n = rest.len() as int;
        which_time_is_the_latest(rest);
        assert(times[n] == times.last());
        assert forall|i: int| 0 <= i < n implies (#[trigger] times[i]) == rest[i] by {}
        if rest.contains(Some(latest(rest))) {
            let k = choose|k: int| 0 <= k < rest.len() && rest[k] == Some(latest(rest));
            assert(times[k] == Some(latest(rest)));
        }
    }
}

/// The page is looked for where it is configured to be, and else at the first place that has it.
pub proof fn where_the_page_is(
    configured: Option<Seq<char>>,
    places: Seq<(Seq<char>, bool)>,
    from: int,
    n: int,
)
    requires
        0 <= from <= n <= places.len(),
        forall|k: int| from <= k < n ==> !(#[trigger] places[k]).1,
    ensures
        configured matches Some(dir) ==> page_place(configured, places, from) == dir,
        configured is None && n < places.len() && places[n].1 ==> page_place(
            configured,
            places,
            from,
        ) == places[n].0,
        configured is None && n == places.len() ==> page_place(configured, places, from) == "web"@,
    decreases n - from,
{
    if from < n {
        assert(!places[from].1);
        where_the_page_is(configured, places, from + 1, n);
    }
}

// ---------------------------------------------------------------------------
// Codes and identifiers
// ---------------------------------------------------------------------------

/// A room code has five characters, capital letters and digits, none of which can be mistaken for
/// another: neither 0 nor O, neither 1 nor I.
pub proof fn room_codes_are_easy_to_read(code: Seq<char>, i: int)
    requires
        is_room_code(code),
        0 <= i < code.len(),
    ensures
        code.len() == 5,
        'A' <= code[i] <= 'Z' && code[i] != 'I' && code[i] != 'O' || '2' <= code[i] <= '9',
{
    reveal_strlit("ABCDEFGHJKLMNPQRSTUVWXYZ23456789");
    let alphabet = code_alphabet();
    assert(alphabet.contains(code[i]));
    let k = choose|k: int| 0 <= k < alphabet.len() && alphabet[k] == code[i];
    assert(0 <= k < 32);
}

/// Every draw spells its own character, so that different draws give different codes.
pub proof fn draws_tell_codes_apart(a: Seq<usize>, b: Seq<usize>)
    requires
        spelled(a) == spelled(b),
        forall|i: int| 0 <= i < a.len() ==> #[trigger] a[i] < 32,
        forall|i: int| 0 <= i < b.len() ==> #[trigger] b[i] < 32,
    ensures
        a == b,
{
    reveal_strlit("ABCDEFGHJKLMNPQRSTUVWXYZ23456789");
    assert(a.len() == spelled(a).len() && b.len() == spelled(b).len());
    assert forall|i: int| 0 <= i < a.len() implies a[i] == b[i] by {
        assert(spelled(a)[i] == code_alphabet()[a[i] as int]);
        assert(spelled(b)[i] == code_alphabet()[b[i] as int]);
    }
    assert(a =~= b);
}

/// The texts of different identifiers differ.
pub proof fn identifiers_are_told_apart(a: u128, b: u128)
    requires
        hyphenated(a) == hyphenated(b),
    ensures
        a == b,
{
    assert forall|k: int| 0 <= k < 32 implies #[trigger] hex_digit_at(a, k) == hex_digit_at(
        b,
        k,
    ) by {
        let i = if k < 8 {
            k
        } else if k < 12 {
            k + 1
        } else if k < 16 {
            k + 2
        } else if k < 20 {
            k + 3
        } else {
            k + 4
        };
        assert(hyphenated(a)[i] == hex_char(hex_digit_at(a, k)));
        assert(hyphenated(b)[i] == hex_char(hex_digit_at(b, k)));
        lemma_hex_char(hex_digit_at(a, k), hex_digit_at(b, k));
    }
    lemma_upper_digits(a, b, 32);
    lemma_pow0(16);
    assert(a as int / 1 == b as int / 1);
}

proof fn lemma_hex_char(c: nat, d: nat)
    requires
        c < 16,
        d < 16,
        hex_char(c) == hex_char(d),
    ensures
        c == d,
{
    assert(hex_char(c) as int == if c < 10 {
        c + 48
    } else {
        c + 87
    });
    assert(hex_char(d) as int == if d < 10 {
        d + 48
    } else {
        d + 87
    });
}

/// Where the digits are the same, so are the numbers that the first `k` of them make up.
proof fn lemma_upper_digits(a: u128, b: u128, k: int)
    requires
        0 <= k <= 32,
        forall|j: int| 0 <= j < 32 ==> #[trigger] hex_digit_at(a, j) == hex_digit_at(b, j),
    ensures
        a as int / pow(16, (32 - k) as nat) == b as int / pow(16, (32 - k) as nat),
    decreases k,
{
    if k == 0 {
        lemma_pow_16_32();
        let p = pow(16, 32);
        lemma_basic_div(a as int, p);
        lemma_basic_div(b as int, p);
    } else {
        lemma_upper_digits(a, b, k - 1);
        lemma_next_digit(a as int, (32 - k) as nat);
        lemma_next_digit(b as int, (32 - k) as nat);
        assert(hex_digit_at(a, k - 1) == hex_digit_at(b, k - 1));
    }
}

proof fn lemma_next_digit(x: int, e: nat)
    requires
        x >= 0,
    ensures
        x / pow(16, e) == 16 * (x / pow(16, e + 1)) + x / pow(16, e) % 16,
        0 <= x / pow(16, e) % 16 < 16,
{
    let p = pow(16, e);
    lemma_pow_positive(16, e);
    lemma_pow_adds(16, e, 1);
    lemma_pow1(16);
    assert(pow(16, e + 1) == p * 16);
    lemma_div_denominator(x, p, 16);
}

proof fn lemma_pow_16_32()
    ensures
        pow(16, 32) > u128::MAX,
{
    lemma_pow_adds(16, 16, 16);
    lemma_pow_adds(16, 8, 8);
    lemma_pow_adds(16, 4, 4);
    reveal_with_fuel(pow, 6);
    let p4 = pow(16, 4);
    assert(p4 == 65_536);
    let p8 = pow(16, 8);
    assert(p8 == 4_294_967_296) by {
        assert(p8 == 65_536 * 65_536);
    }
    let p16 = pow(16, 16);
    assert(p16 == 18_446_744_073_709_551_616) by {
        assert(p16 == p8 * p8);
        assert(p8 * p8 == 4_294_967_296 * 4_294_967_296) by (nonlinear_arith)
            requires
                p8 == 4_294_967_296,
        ;
    }
    let p32 = pow(16, 32);
    assert(p32 == p16 * p16);
    assert(p16 * p16 == 18_446_744_073_709_551_616 * 18_446_744_073_709_551_616) by (
    nonlinear_arith)
        requires
            p16 == 18_446_744_073_709_551_616,
    ;
}

/// No two seats share a key.
pub proof fn keys_tell_seats_apart(a: Uuid, b: Uuid)
    requires
        seat_key_text(a) == seat_key_text(b),
    ensures
        a == b,
{
    reveal_strlit("bones:seat:");
    assert(seat_key_text(a).skip(11) =~= hyphenated(a.0));
    assert(seat_key_text(b).skip(11) =~= hyphenated(b.0));
    identifiers_are_told_apart(a.0, b.0);
}

/// Saving a room touches its own key, the channel, and one key for each row, that of its seat.
pub proof fn what_saving_touches(room: RoomModel)
    ensures
        save_keys_texts(room).len() == room.players.len() + 2,
        save_keys_texts(room)[0] == "bones:room:"@ + room.code,
        save_keys_texts(room)[1] == "bones:rooms"@,
        forall|i: int|
            0 <= i < room.players.len() ==> save_keys_texts(room)[i + 2] == seat_key_text(
                (#[trigger] room.players[i]).seat_key,
            ),
{
}

} // verus!
