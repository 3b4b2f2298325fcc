//! The persistence codec: renders a store to text and parses it back.
//!
//! The form is positional. Every number stands as sixteen lower-case hex
//! digits; every character sequence stands as its length followed by its
//! characters. Parsing is total over arbitrary text: it yields the store
//! the text denotes, or nothing, and rendering then parsing gives back an
//! equal store.

use vstd::prelude::*;

use crate::models::habit::Difficulty;
use crate::models::habit::Habit;
use crate::models::habit::HabitView;
use crate::models::habit::Kind;
use crate::models::habit::Streak;
use crate::models::habit_name::HabitName;
use crate::models::habit_unit::HabitUnit;
use crate::models::habit_log::Date;
use crate::models::habit_log::HabitLog;
use crate::models::habit_log::LogView;
use crate::models::quantum::Quantum;
use crate::store::HabitLogStore;
use crate::store::HabitStore;
use crate::store::LogStoreView;
use crate::store::log_store_wf;
use crate::store::HabitStoreView;
use crate::store::habit_store_wf;
use vstd::arithmetic::div_mod::lemma_div_denominator;
use vstd::arithmetic::div_mod::lemma_fundamental_div_mod;
use vstd::arithmetic::div_mod::lemma_multiply_divide_lt;

verus! {

/// The hex digit character standing for `d` (meaningful for `d < 16`).
pub open spec fn hex_digit_char(d: nat) -> char {
    if d == 0 {
        '0'
    } else if d == 1 {
        '1'
    } else if d == 2 {
        '2'
    } else if d == 3 {
        '3'
    } else if d == 4 {
        '4'
    } else if d == 5 {
        '5'
    } else if d == 6 {
        '6'
    } else if d == 7 {
        '7'
    } else if d == 8 {
        '8'
    } else if d == 9 {
        '9'
    } else if d == 10 {
        'a'
    } else if d == 11 {
        'b'
    } else if d == 12 {
        'c'
    } else if d == 13 {
        'd'
    } else if d == 14 {
        'e'
    } else {
        'f'
    }
}

pub open spec fn is_hex_char(c: char) -> bool {
    ||| c == '0'
    ||| c == '1'
    ||| c == '2'
    ||| c == '3'
    ||| c == '4'
    ||| c == '5'
    ||| c == '6'
    ||| c == '7'
    ||| c == '8'
    ||| c == '9'
    ||| c == 'a'
    ||| c == 'b'
    ||| c == 'c'
    ||| c == 'd'
    ||| c == 'e'
    ||| c == 'f'
}

/// The value of a hex digit character (zero on any other character).
pub open spec fn hex_char_val(c: char) -> nat {
    if c == '1' {
        1
    } else if c == '2' {
        2
    } else if c == '3' {
        3
    } else if c == '4' {
        4
    } else if c == '5' {
        5
    } else if c == '6' {
        6
    } else if c == '7' {
        7
    } else if c == '8' {
        8
    } else if c == '9' {
        9
    } else if c == 'a' {
        10
    } else if c == 'b' {
        11
    } else if c == 'c' {
        12
    } else if c == 'd' {
        13
    } else if c == 'e' {
        14
    } else if c == 'f' {
        15
    } else {
        0
    }
}

pub open spec fn pow16(w: nat) -> nat
    decreases w,
{
    if w == 0 {
        1
    } else {
        16 * pow16((w - 1) as nat)
    }
}

pub proof fn lemma_pow16_values()
    ensures
        pow16(15) == 0x1000_0000_0000_0000,
        pow16(16) == 0x1_0000_0000_0000_0000,
{
    assert(pow16(0) == 1);
    assert(pow16(1) == 16);
    assert(pow16(2) == 0x100);
    assert(pow16(3) == 0x1000);
    assert(pow16(4) == 0x1_0000);
    assert(pow16(5) == 0x10_0000);
    assert(pow16(6) == 0x100_0000);
    assert(pow16(7) == 0x1000_0000);
    assert(pow16(8) == 0x1_0000_0000);
    assert(pow16(9) == 0x10_0000_0000);
    assert(pow16(10) == 0x100_0000_0000);
    assert(pow16(11) == 0x1000_0000_0000);
    assert(pow16(12) == 0x1_0000_0000_0000);
    assert(pow16(13) == 0x10_0000_0000_0000);
    assert(pow16(14) == 0x100_0000_0000_0000);
    assert(pow16(15) == 0x1000_0000_0000_0000);
    assert(pow16(16) == 0x1_0000_0000_0000_0000);
}

pub proof fn lemma_pow16_increases(a: nat, b: nat)
    requires
        a <= b,
    ensures
        pow16(a) <= pow16(b),
    decreases b,
{
    if a < b {
        lemma_pow16_increases(a, (b - 1) as nat);
        assert(pow16(b) == 16 * pow16((b - 1) as nat));
        assert(pow16((b - 1) as nat) <= 16 * pow16((b - 1) as nat));
    }
}

/// The `w` trailing hex digits of `n`, most significant first.
pub open spec fn render_number_rec(n: nat, w: nat) -> Seq<char>
    decreases w,
{
    if w == 0 {
        Seq::empty()
    } else {
        render_number_rec(n / 16, (w - 1) as nat).push(hex_digit_char(n % 16))
    }
}

/// A number always renders as sixteen hex digits.
pub open spec fn render_u64(n: u64) -> Seq<char> {
    render_number_rec(n as nat, 16)
}

pub proof fn lemma_render_number_rec_len(n: nat, w: nat)
    ensures
        render_number_rec(n, w).len() == w,
    decreases w,
{
    if w > 0 {
        lemma_render_number_rec_len(n / 16, (w - 1) as nat);
    }
}

/// The value a sequence of hex digit characters denotes.
pub open spec fn hex_val(s: Seq<char>) -> nat
    decreases s.len(),
{
    if s.len() == 0 {
        0
    } else {
        hex_val(s.drop_last()) * 16 + hex_char_val(s.last())
    }
}

pub proof fn lemma_hex_digit_roundtrip(d: nat)
    requires
        d < 16,
    ensures
        is_hex_char(hex_digit_char(d)),
        hex_char_val(hex_digit_char(d)) == d,
{
}

pub proof fn lemma_hex_val_bound(s: Seq<char>)
    ensures
        hex_val(s) < pow16(s.len()),
    decreases s.len(),
{
    if s.len() > 0 {
        lemma_hex_val_bound(s.drop_last());
        assert(hex_char_val(s.last()) < 16);
        assert(pow16(s.len()) == 16 * pow16((s.len() - 1) as nat));
    }
}

/// Rendering a number below `pow16(w)` over `w` digits and reading the
/// digits back gives the number.
pub proof fn lemma_render_hex_val(n: nat, w: nat)
    requires
        n < pow16(w),
    ensures
        hex_val(render_number_rec(n, w)) == n,
        forall|i: int| 0 <= i < w ==> is_hex_char(#[trigger] render_number_rec(n, w)[i]),
    decreases w,
{
    lemma_render_number_rec_len(n, w);
    if w == 0 {
    } else {
        assert(n / 16 < pow16((w - 1) as nat)) by {
            assert(pow16(w) == 16 * pow16((w - 1) as nat));
            lemma_multiply_divide_lt(n as int, 16, pow16((w - 1) as nat) as int);
        }
        lemma_render_hex_val(n / 16, (w - 1) as nat);
        let prefix = render_number_rec(n / 16, (w - 1) as nat);
        lemma_render_number_rec_len(n / 16, (w - 1) as nat);
        let s = render_number_rec(n, w);
        assert(s == prefix.push(hex_digit_char(n % 16)));
        assert(s.drop_last() =~= prefix);
        lemma_hex_digit_roundtrip(n % 16);
        assert(hex_val(s) == (n / 16) * 16 + (n % 16));
        lemma_fundamental_div_mod(n as int, 16);
        assert forall|i: int| 0 <= i < w implies is_hex_char(#[trigger] s[i]) by {
            if i < w - 1 {
                assert(s[i] == prefix[i]);
            } else {
                assert(s[i] == hex_digit_char(n % 16));
            }
        }
    }
}

/// Reads sixteen hex digits at `p`: the number they denote and the next
/// position, or nothing when fewer than sixteen hex digits stand there.
pub open spec fn parse_u64_at(t: Seq<char>, p: int) -> Option<(u64, int)> {
    if 0 <= p && p + 16 <= t.len() && (forall|i: int|
        p <= i < p + 16 ==> is_hex_char(#[trigger] t[i])) {
        Some((hex_val(t.subrange(p, p + 16)) as u64, p + 16))
    } else {
        None
    }
}

/// Parsing at a position where a rendered number stands gives it back.
pub proof fn lemma_parse_u64_render(t: Seq<char>, p: int, n: u64)
    requires
        0 <= p,
        p + 16 <= t.len(),
        t.subrange(p, p + 16) == render_u64(n),
    ensures
        parse_u64_at(t, p) == Some((n, p + 16)),
{
    lemma_pow16_values();
    lemma_render_hex_val(n as nat, 16);
    lemma_render_number_rec_len(n as nat, 16);
    assert forall|i: int| p <= i < p + 16 implies is_hex_char(#[trigger] t[i]) by {
        assert(t[i] == t.subrange(p, p + 16)[i - p]);
    }
    assert(hex_val(t.subrange(p, p + 16)) == n as nat);
}

/// A character sequence renders as its length, then its characters.
pub open spec fn render_str(s: Seq<char>) -> Seq<char> {
    render_u64(s.len() as u64) + s
}

/// Reads a length-prefixed character sequence at `p`.
pub open spec fn parse_str_at(t: Seq<char>, p: int) -> Option<(Seq<char>, int)> {
    match parse_u64_at(t, p) {
        None => None,
        Some((n, p2)) => if p2 + n <= t.len() {
            Some((t.subrange(p2, p2 + n as int), p2 + n as int))
        } else {
            None
        },
    }
}

pub proof fn lemma_render_u64_len(n: u64)
    ensures
        render_u64(n).len() == 16,
{
    lemma_render_number_rec_len(n as nat, 16);
}

pub proof fn lemma_render_str_len(s: Seq<char>)
    ensures
        render_str(s).len() == 16 + s.len(),
{
    lemma_render_u64_len(s.len() as u64);
}

/// Parsing at a position where a rendered character sequence stands gives
/// it back.
pub proof fn lemma_parse_str_render(t: Seq<char>, p: int, s: Seq<char>)
    requires
        0 <= p,
        p + 16 + s.len() <= t.len(),
        t.subrange(p, p + 16 + s.len() as int) == render_str(s),
        s.len() <= u64::MAX,
    ensures
        parse_str_at(t, p) == Some((s, p + 16 + s.len())),
{
    lemma_render_u64_len(s.len() as u64);
    let w = t.subrange(p, p + 16 + s.len() as int);
    assert(t.subrange(p, p + 16) =~= render_u64(s.len() as u64)) by {
        assert forall|i: int| 0 <= i < 16 implies #[trigger] t.subrange(p, p + 16)[i]
            == render_u64(s.len() as u64)[i] by {
            assert(t.subrange(p, p + 16)[i] == t[p + i]);
            assert(t[p + i] == w[i]);
            assert(w[i] == render_str(s)[i]);
        }
    }
    lemma_parse_u64_render(t, p, s.len() as u64);
    let n = s.len() as u64;
    assert(n as int == s.len());
    let p2 = p + 16;
    assert(p2 + n <= t.len());
    assert(t.subrange(p2, p2 + n as int) =~= s) by {
        assert forall|i: int| 0 <= i < s.len() implies t.subrange(p2, p2 + n as int)[i] == s[i] by {
            assert(t.subrange(p2, p2 + n as int)[i] == t[p2 + i]);
            assert(t[p2 + i] == w[16 + i]);
            assert(w[16 + i] == render_str(s)[16 + i]);
        }
    }
}

fn hex_val_of_char(c: char) -> (r: Option<u64>)
    ensures
        r is Some <==> is_hex_char(c),
        r matches Some(v) ==> v == hex_char_val(c) && v < 16,
{
    if c == '0' {
        Some(0)
    } else if c == '1' {
        Some(1)
    } else if c == '2' {
        Some(2)
    } else if c == '3' {
        Some(3)
    } else if c == '4' {
        Some(4)
    } else if c == '5' {
        Some(5)
    } else if c == '6' {
        Some(6)
    } else if c == '7' {
        Some(7)
    } else if c == '8' {
        Some(8)
    } else if c == '9' {
        Some(9)
    } else if c == 'a' {
        Some(10)
    } else if c == 'b' {
        Some(11)
    } else if c == 'c' {
        Some(12)
    } else if c == 'd' {
        Some(13)
    } else if c == 'e' {
        Some(14)
    } else if c == 'f' {
        Some(15)
    } else {
        None
    }
}

fn append_hex_digit(out: &mut String, d: u64)
    requires
        d < 16,
    ensures
        final(out)@ == old(out)@.push(hex_digit_char(d as nat)),
{
    if d == 0 {
        out.append("0");
        proof {
            reveal_strlit("0");
            assert(out@ =~= old(out)@.push(hex_digit_char(d as nat)));
        }
    } else if d == 1 {
        out.append("1");
        proof {
            reveal_strlit("1");
            assert(out@ =~= old(out)@.push(hex_digit_char(d as nat)));
        }
    } else if d == 2 {
        out.append("2");
        proof {
            reveal_strlit("2");
            assert(out@ =~= old(out)@.push(hex_digit_char(d as nat)));
        }
    } else if d == 3 {
        out.append("3");
        proof {
            reveal_strlit("3");
            assert(out@ =~= old(out)@.push(hex_digit_char(d as nat)));
        }
    } else if d == 4 {
        out.append("4");
        proof {
            reveal_strlit("4");
            assert(out@ =~= old(out)@.push(hex_digit_char(d as nat)));
        }
    } else if d == 5 {
        out.append("5");
        proof {
            reveal_strlit("5");
            assert(out@ =~= old(out)@.push(hex_digit_char(d as nat)));
        }
    } else if d == 6 {
        out.append("6");
        proof {
            reveal_strlit("6");
            assert(out@ =~= old(out)@.push(hex_digit_char(d as nat)));
        }
    } else if d == 7 {
        out.append("7");
        proof {
            reveal_strlit("7");
            assert(out@ =~= old(out)@.push(hex_digit_char(d as nat)));
        }
    } else if d == 8 {
        out.append("8");
        proof {
            reveal_strlit("8");
            assert(out@ =~= old(out)@.push(hex_digit_char(d as nat)));
        }
    } else if d == 9 {
        out.append("9");
        proof {
            reveal_strlit("9");
            assert(out@ =~= old(out)@.push(hex_digit_char(d as nat)));
        }
    } else if d == 10 {
        out.append("a");
        proof {
            reveal_strlit("a");
            assert(out@ =~= old(out)@.push(hex_digit_char(d as nat)));
        }
    } else if d == 11 {
        out.append("b");
        proof {
            reveal_strlit("b");
            assert(out@ =~= old(out)@.push(hex_digit_char(d as nat)));
        }
    } else if d == 12 {
        out.append("c");
        proof {
            reveal_strlit("c");
            assert(out@ =~= old(out)@.push(hex_digit_char(d as nat)));
        }
    } else if d == 13 {
        out.append("d");
        proof {
            reveal_strlit("d");
            assert(out@ =~= old(out)@.push(hex_digit_char(d as nat)));
        }
    } else if d == 14 {
        out.append("e");
        proof {
            reveal_strlit("e");
            assert(out@ =~= old(out)@.push(hex_digit_char(d as nat)));
        }
    } else {
        out.append("f");
        proof {
            reveal_strlit("f");
            assert(out@ =~= old(out)@.push(hex_digit_char(d as nat)));
        }
    }
}

/// Each rendered digit is the matching base-16 digit of the number.
pub proof fn lemma_render_index(n: nat, w: nat, i: int)
    requires
        0 <= i < w,
    ensures
        render_number_rec(n, w)[i] == hex_digit_char((n / pow16((w - 1 - i) as nat)) % 16),
    decreases w,
{
    lemma_render_number_rec_len(n, w);
    let s = render_number_rec(n, w);
    let prefix = render_number_rec(n / 16, (w - 1) as nat);
    lemma_render_number_rec_len(n / 16, (w - 1) as nat);
    if i == w - 1 {
        assert(pow16(0) == 1);
        assert(n / 1 == n);
        assert(s[i] == hex_digit_char(n % 16));
    } else {
        lemma_render_index(n / 16, (w - 1) as nat, i);
        assert(s[i] == prefix[i]);
        let e = (w - 2 - i) as nat;
        lemma_pow16_increases(0, e);
        assert(pow16(0) == 1);
        lemma_div_denominator(n as int, 16, pow16(e) as int);
        assert(pow16((e + 1) as nat) == 16 * pow16(e));
        assert((n / 16) / pow16(e) == n / (16 * pow16(e)));
    }
}

/// Appends the sixteen hex digits of `n`.
fn render_u64_exec(out: &mut String, n: u64)
    ensures
        final(out)@ == old(out)@ + render_u64(n),
{
    let mut digits: Vec<u64> = Vec::new();
    let mut m = n;
    let mut k: usize = 0;
    proof {
        assert(pow16(0) == 1);
        assert(n as nat / 1 == n as nat);
    }
    while k < 16
        invariant
            k <= 16,
            digits@.len() == k,
            m as nat == n as nat / pow16(k as nat),
            forall|j: int|
                0 <= j < k ==> #[trigger] digits@[j] == ((n as nat / pow16(j as nat)) % 16) as u64,
        decreases 16 - k,
    {
        digits.push(m % 16);
        proof {
            lemma_pow16_increases(0, k as nat);
            assert(pow16(0) == 1);
            lemma_div_denominator(n as int, pow16(k as nat) as int, 16);
            assert(pow16((k + 1) as nat) == 16 * pow16(k as nat));
            assert((n as nat / pow16(k as nat)) / 16 == n as nat / (pow16(k as nat) * 16));
            assert(pow16(k as nat) * 16 == 16 * pow16(k as nat));
        }
        m = m / 16;
        k = k + 1;
    }
    let ghost target = render_u64(n);
    proof {
        lemma_render_number_rec_len(n as nat, 16);
    }
    let mut k2: usize = 0;
    while k2 < 16
        invariant
            k2 <= 16,
            digits@.len() == 16,
            forall|j: int|
                0 <= j < 16 ==> #[trigger] digits@[j] == ((n as nat / pow16(j as nat)) % 16) as u64,
            target == render_u64(n),
            target.len() == 16,
            out@ == old(out)@ + target.subrange(0, k2 as int),
        decreases 16 - k2,
    {
        let d = digits[15 - k2];
        proof {
            lemma_render_index(n as nat, 16, k2 as int);
            assert(digits@[15 - k2 as int] == ((n as nat / pow16((15 - k2) as nat)) % 16) as u64);
            assert(target[k2 as int] == hex_digit_char((n as nat / pow16((15 - k2) as nat)) % 16));
        }
        append_hex_digit(out, d);
        proof {
            assert(out@ =~= old(out)@ + target.subrange(0, k2 as int + 1));
        }
        k2 = k2 + 1;
    }
    proof {
        assert(target.subrange(0, 16) =~= target);
    }
}

/// Appends the rendering of `s`: its character count, then its characters.
fn render_str_exec(out: &mut String, s: &str)
    ensures
        final(out)@ == old(out)@ + render_str(s@),
{
    let n = s.unicode_len();
    render_u64_exec(out, n as u64);
    out.append(s);
    proof {
        assert(out@ =~= old(out)@ + render_str(s@));
    }
}

/// Reads sixteen hex digits at `p`, as `parse_u64_at` describes.
fn parse_u64_exec(t: &str, p: usize, tlen: usize) -> (r: Option<(u64, usize)>)
    requires
        tlen == t@.len(),
        p <= tlen,
    ensures
        match r {
            Some((n, p2)) => parse_u64_at(t@, p as int) == Some((n, p2 as int)) && p2 <= tlen,
            None => parse_u64_at(t@, p as int) is None,
        },
{
    if tlen - p < 16 {
        return None;
    }
    let mut acc: u64 = 0;
    let mut i: usize = 0;
    while i < 16
        invariant
            i <= 16,
            p + 16 <= tlen,
            tlen == t@.len(),
            forall|j: int| p <= j < p + i ==> is_hex_char(#[trigger] t@[j]),
            acc as nat == hex_val(t@.subrange(p as int, p as int + i as int)),
        decreases 16 - i,
    {
        proof {
            lemma_pow16_values();
            lemma_hex_val_bound(t@.subrange(p as int, p as int + i as int));
            lemma_pow16_increases(i as nat, 15);
        }
        let c = t.get_char(p + i);
        match hex_val_of_char(c) {
            Some(d) => {
                acc = acc * 16 + d;
                proof {
                    assert(t@.subrange(p as int, p as int + i + 1).drop_last() =~= t@.subrange(
                        p as int,
                        p as int + i,
                    ));
                    assert(t@.subrange(p as int, p as int + i + 1).last() == t@[p as int + i]);
                }
            },
            None => {
                proof {
                    assert(!is_hex_char(t@[p as int + i]));
                }
                return None;
            },
        }
        i = i + 1;
    }
    proof {
        lemma_pow16_values();
        lemma_hex_val_bound(t@.subrange(p as int, p as int + 16));
    }
    Some((acc, p + 16))
}

/// Reads a length-prefixed character sequence at `p`, as `parse_str_at`
/// describes; the characters come back owned.
fn parse_str_exec(t: &str, p: usize, tlen: usize) -> (r: Option<(String, usize)>)
    requires
        tlen == t@.len(),
        p <= tlen,
    ensures
        match r {
            Some((s, p2)) => parse_str_at(t@, p as int) == Some((s@, p2 as int)) && p2 <= tlen,
            None => parse_str_at(t@, p as int) is None,
        },
{
    match parse_u64_exec(t, p, tlen) {
        None => None,
        Some((n, p2)) => {
            if n > (tlen - p2) as u64 {
                return None;
            }
            let nn = n as usize;
            let sub = t.substring_char(p2, p2 + nn);
            Some((sub.to_owned(), p2 + nn))
        },
    }
}

/// The persisted tag of a streak variant.
pub open spec fn streak_tag(s: Streak) -> u64 {
    match s {
        Streak::Daily => 0,
        Streak::Weekly => 1,
        Streak::Monthly => 2,
    }
}

pub open spec fn streak_of_tag(t: u64) -> Option<Streak> {
    if t == 0 {
        Some(Streak::Daily)
    } else if t == 1 {
        Some(Streak::Weekly)
    } else if t == 2 {
        Some(Streak::Monthly)
    } else {
        None
    }
}

/// The persisted tag of a difficulty variant.
pub open spec fn difficulty_tag(d: Difficulty) -> u64 {
    match d {
        Difficulty::Trivial => 0,
        Difficulty::Easy => 1,
        Difficulty::Medium => 2,
        Difficulty::Hard => 3,
    }
}

pub open spec fn difficulty_of_tag(t: u64) -> Option<Difficulty> {
    if t == 0 {
        Some(Difficulty::Trivial)
    } else if t == 1 {
        Some(Difficulty::Easy)
    } else if t == 2 {
        Some(Difficulty::Medium)
    } else if t == 3 {
        Some(Difficulty::Hard)
    } else {
        None
    }
}

/// The persisted tag of a kind variant.
pub open spec fn kind_tag(k: Kind) -> u64 {
    match k {
        Kind::Positive => 0,
        Kind::Negative => 1,
    }
}

pub open spec fn kind_of_tag(t: u64) -> Option<Kind> {
    if t == 0 {
        Some(Kind::Positive)
    } else if t == 1 {
        Some(Kind::Negative)
    } else {
        None
    }
}

pub open spec fn bool_tag(b: bool) -> u64 {
    if b {
        1
    } else {
        0
    }
}

pub open spec fn bool_of_tag(t: u64) -> Option<bool> {
    if t == 0 {
        Some(false)
    } else if t == 1 {
        Some(true)
    } else {
        None
    }
}

/// A habit renders as its fields in order: identifier, name, quantum,
/// unit, notes, and the four classification tags.
pub open spec fn render_habit(h: HabitView) -> Seq<char> {
    render_u64(h.id as u64) + (render_str(h.name) + (render_u64(h.quantum) + (render_str(h.unit)
        + (render_str(h.notes) + (render_u64(streak_tag(h.streak)) + (render_u64(
        difficulty_tag(h.difficulty),
    ) + (render_u64(kind_tag(h.kind)) + render_u64(bool_tag(h.active)))))))))
}

/// A window of `t` holding `a + b` holds `a` then `b`.
pub proof fn lemma_split_window(t: Seq<char>, q: int, a: Seq<char>, b: Seq<char>)
    requires
        0 <= q,
        q + a.len() + b.len() <= t.len(),
        t.subrange(q, q + a.len() + b.len()) == a + b,
    ensures
        t.subrange(q, q + a.len() as int) == a,
        t.subrange(q + a.len() as int, q + a.len() + b.len()) == b,
{
    assert forall|i: int| 0 <= i < a.len() implies #[trigger] t.subrange(q, q + a.len() as int)[i]
        == a[i] by {
        assert(t.subrange(q, q + a.len() as int)[i] == t[q + i]);
        assert(t.subrange(q, q + a.len() + b.len())[i] == t[q + i]);
        assert((a + b)[i] == a[i]);
    }
    assert(t.subrange(q, q + a.len() as int) =~= a);
    assert forall|i: int| 0 <= i < b.len() implies #[trigger] t.subrange(
        q + a.len() as int,
        q + a.len() + b.len(),
    )[i] == b[i] by {
        assert(t.subrange(q + a.len() as int, q + a.len() + b.len())[i] == t[q + a.len() + i]);
        assert(t.subrange(q, q + a.len() + b.len())[a.len() + i] == t[q + a.len() + i]);
        assert((a + b)[a.len() + i] == b[i]);
    }
    assert(t.subrange(q + a.len() as int, q + a.len() + b.len()) =~= b);
}

/// Reads one habit at `p`; a tag outside its range or an identifier over
/// `u32::MAX` is a parse failure.
pub open spec fn parse_habit_at(t: Seq<char>, p: int) -> Option<(HabitView, int)> {
    match parse_u64_at(t, p) {
        None => None,
        Some((id, p1)) => if id > u32::MAX as u64 {
            None
        } else {
            match parse_str_at(t, p1) {
                None => None,
                Some((name, p2)) => match parse_u64_at(t, p2) {
                    None => None,
                    Some((quantum, p3)) => match parse_str_at(t, p3) {
                        None => None,
                        Some((unit, p4)) => match parse_str_at(t, p4) {
                            None => None,
                            Some((notes, p5)) => match parse_u64_at(t, p5) {
                                None => None,
                                Some((st, p6)) => match streak_of_tag(st) {
                                    None => None,
                                    Some(streak) => match parse_u64_at(t, p6) {
                                        None => None,
                                        Some((dt, p7)) => match difficulty_of_tag(dt) {
                                            None => None,
                                            Some(difficulty) => match parse_u64_at(t, p7) {
                                                None => None,
                                                Some((kt, p8)) => match kind_of_tag(kt) {
                                                    None => None,
                                                    Some(kind) => match parse_u64_at(t, p8) {
                                                        None => None,
                                                        Some((at, p9)) => match bool_of_tag(at) {
                                                            None => None,
                                                            Some(active) => Some(
                                                                (
                                                                    HabitView {
                                                                        id: id as u32,
                                                                        name,
                                                                        quantum,
                                                                        unit,
                                                                        notes,
                                                                        streak,
                                                                        difficulty,
                                                                        kind,
                                                                        active,
                                                                    },
                                                                    p9,
                                                                ),
                                                            ),
                                                        },
                                                    },
                                                },
                                            },
                                        },
                                    },
                                },
                            },
                        },
                    },
                },
            }
        },
    }
}

/// Every character sequence of the habit has a length a number can carry.
pub open spec fn fits_habit(h: HabitView) -> bool {
    &&& h.name.len() <= u64::MAX
    &&& h.unit.len() <= u64::MAX
    &&& h.notes.len() <= u64::MAX
}

pub proof fn lemma_render_habit_len(h: HabitView)
    ensures
        render_habit(h).len() == 144 + h.name.len() + h.unit.len() + h.notes.len(),
{
    lemma_render_u64_len(h.id as u64);
    lemma_render_str_len(h.name);
    lemma_render_u64_len(h.quantum);
    lemma_render_str_len(h.unit);
    lemma_render_str_len(h.notes);
    lemma_render_u64_len(streak_tag(h.streak));
    lemma_render_u64_len(difficulty_tag(h.difficulty));
    lemma_render_u64_len(kind_tag(h.kind));
    lemma_render_u64_len(bool_tag(h.active));
}

pub proof fn lemma_streak_tag_roundtrip(s: Streak)
    ensures
        streak_of_tag(streak_tag(s)) == Some(s),
{
    match s {
        Streak::Daily => {},
        Streak::Weekly => {},
        Streak::Monthly => {},
    }
}

pub proof fn lemma_difficulty_tag_roundtrip(d: Difficulty)
    ensures
        difficulty_of_tag(difficulty_tag(d)) == Some(d),
{
    match d {
        Difficulty::Trivial => {},
        Difficulty::Easy => {},
        Difficulty::Medium => {},
        Difficulty::Hard => {},
    }
}

pub proof fn lemma_kind_tag_roundtrip(k: Kind)
    ensures
        kind_of_tag(kind_tag(k)) == Some(k),
{
    match k {
        Kind::Positive => {},
        Kind::Negative => {},
    }
}

/// Parsing at a position where a rendered habit stands gives it back.
pub proof fn lemma_parse_habit_render(t: Seq<char>, p: int, h: HabitView)
    requires
        0 <= p,
        p + render_habit(h).len() <= t.len(),
        t.subrange(p, p + render_habit(h).len() as int) == render_habit(h),
        fits_habit(h),
    ensures
        parse_habit_at(t, p) == Some((h, p + render_habit(h).len())),
{
    let whole = render_habit(h);
    lemma_render_habit_len(h);
    let r1 = render_u64(h.id as u64);
    let r2 = render_str(h.name);
    let r3 = render_u64(h.quantum);
    let r4 = render_str(h.unit);
    let r5 = render_str(h.notes);
    let r6 = render_u64(streak_tag(h.streak));
    let r7 = render_u64(difficulty_tag(h.difficulty));
    let r8 = render_u64(kind_tag(h.kind));
    let r9 = render_u64(bool_tag(h.active));
    lemma_render_u64_len(h.id as u64);
    lemma_render_str_len(h.name);
    lemma_render_u64_len(h.quantum);
    lemma_render_str_len(h.unit);
    lemma_render_str_len(h.notes);
    lemma_render_u64_len(streak_tag(h.streak));
    lemma_render_u64_len(difficulty_tag(h.difficulty));
    lemma_render_u64_len(kind_tag(h.kind));
    lemma_render_u64_len(bool_tag(h.active));
    let s9 = r9;
    let s8 = r8 + s9;
    let s7 = r7 + s8;
    let s6 = r6 + s7;
    let s5 = r5 + s6;
    let s4 = r4 + s5;
    let s3 = r3 + s4;
    let s2 = r2 + s3;
    assert(whole == r1 + s2);
    let o1 = p + 16;
    let o2 = o1 + 16 + h.name.len() as int;
    let o3 = o2 + 16;
    let o4 = o3 + 16 + h.unit.len() as int;
    let o5 = o4 + 16 + h.notes.len() as int;
    let o6 = o5 + 16;
    let o7 = o6 + 16;
    let o8 = o7 + 16;
    let o9 = o8 + 16;
    lemma_split_window(t, p, r1, s2);
    lemma_parse_u64_render(t, p, h.id as u64);
    assert(h.id as u64 <= u32::MAX as u64);
    assert((h.id as u64) as u32 == h.id);
    lemma_split_window(t, o1, r2, s3);
    lemma_parse_str_render(t, o1, h.name);
    lemma_split_window(t, o2, r3, s4);
    lemma_parse_u64_render(t, o2, h.quantum);
    lemma_split_window(t, o3, r4, s5);
    lemma_parse_str_render(t, o3, h.unit);
    lemma_split_window(t, o4, r5, s6);
    lemma_parse_str_render(t, o4, h.notes);
    lemma_split_window(t, o5, r6, s7);
    lemma_parse_u64_render(t, o5, streak_tag(h.streak));
    lemma_split_window(t, o6, r7, s8);
    lemma_parse_u64_render(t, o6, difficulty_tag(h.difficulty));
    lemma_split_window(t, o7, r8, s9);
    lemma_parse_u64_render(t, o7, kind_tag(h.kind));
    lemma_parse_u64_render(t, o8, bool_tag(h.active));
    lemma_streak_tag_roundtrip(h.streak);
    lemma_difficulty_tag_roundtrip(h.difficulty);
    lemma_kind_tag_roundtrip(h.kind);
}

/// A habit sequence renders as the habits in order.
pub open spec fn render_habits(s: Seq<HabitView>) -> Seq<char>
    decreases s.len(),
{
    if s.len() == 0 {
        Seq::empty()
    } else {
        render_habit(s[0]) + render_habits(s.drop_first())
    }
}

pub proof fn lemma_render_habits_push(s: Seq<HabitView>, h: HabitView)
    ensures
        render_habits(s.push(h)) == render_habits(s) + render_habit(h),
    decreases s.len(),
{
    if s.len() == 0 {
        assert(s.push(h).drop_first() =~= Seq::<HabitView>::empty());
        assert(s.push(h)[0] == h);
        assert(render_habits(s.push(h)) == render_habit(h) + render_habits(
            Seq::<HabitView>::empty(),
        ));
        assert(render_habit(h) + Seq::<char>::empty() =~= render_habit(h));
        assert(s =~= Seq::<HabitView>::empty());
        assert(Seq::<char>::empty() + render_habit(h) =~= render_habit(h));
    } else {
        assert(s.push(h).drop_first() =~= s.drop_first().push(h));
        lemma_render_habits_push(s.drop_first(), h);
        assert(s.push(h)[0] == s[0]);
        assert(render_habit(s[0]) + (render_habits(s.drop_first()) + render_habit(h)) =~= (
        render_habit(s[0]) + render_habits(s.drop_first())) + render_habit(h));
    }
}

/// Reads `k` habits one after another from `p`.
pub open spec fn parse_habits_at(t: Seq<char>, p: int, k: nat) -> Option<(Seq<HabitView>, int)>
    decreases k,
{
    if k == 0 {
        Some((Seq::empty(), p))
    } else {
        match parse_habit_at(t, p) {
            None => None,
            Some((h, p2)) => match parse_habits_at(t, p2, (k - 1) as nat) {
                None => None,
                Some((rest, p3)) => Some((seq![h] + rest, p3)),
            },
        }
    }
}

pub open spec fn fits_habits(s: Seq<HabitView>) -> bool {
    forall|i: int| 0 <= i < s.len() ==> fits_habit(#[trigger] s[i])
}

/// Parsing at a position where a rendered habit sequence stands gives it
/// back.
pub proof fn lemma_parse_habits_render(t: Seq<char>, p: int, s: Seq<HabitView>)
    requires
        0 <= p,
        p + render_habits(s).len() <= t.len(),
        t.subrange(p, p + render_habits(s).len() as int) == render_habits(s),
        fits_habits(s),
    ensures
        parse_habits_at(t, p, s.len()) == Some((s, p + render_habits(s).len())),
    decreases s.len(),
{
    if s.len() == 0 {
        assert(s =~= Seq::<HabitView>::empty());
    } else {
        let r0 = render_habit(s[0]);
        let rest = render_habits(s.drop_first());
        let whole = render_habits(s);
        assert(whole == r0 + rest);
        lemma_split_window(t, p, r0, rest);
        lemma_parse_habit_render(t, p, s[0]);
        let p1 = p + r0.len() as int;
        assert(fits_habits(s.drop_first())) by {
            assert(forall|i: int|
                0 <= i < s.drop_first().len() ==> #[trigger] s.drop_first()[i] == s[i + 1]);
        }
        lemma_parse_habits_render(t, p1, s.drop_first());
        assert(seq![s[0]] + s.drop_first() =~= s);
    }
}

/// A habit store renders as its counter, the habit count, then the habits.
pub open spec fn render_habit_store(v: HabitStoreView) -> Seq<char> {
    render_u64(v.current_id as u64) + render_u64(v.habits.len() as u64) + render_habits(v.habits)
}

/// Reads a whole habit-store text: counter, count, habits, nothing after;
/// the result must be well-formed.
pub open spec fn parse_habit_store(t: Seq<char>) -> Option<HabitStoreView> {
    match parse_u64_at(t, 0) {
        None => None,
        Some((cid, p1)) => if cid > u32::MAX as u64 {
            None
        } else {
            match parse_u64_at(t, p1) {
                None => None,
                Some((k, p2)) => match parse_habits_at(t, p2, k as nat) {
                    None => None,
                    Some((habits, p3)) => if p3 == t.len() {
                        let v = HabitStoreView { current_id: cid as u32, habits };
                        if habit_store_wf(v) {
                            Some(v)
                        } else {
                            None
                        }
                    } else {
                        None
                    },
                },
            }
        },
    }
}

/// Every habit of the store fits, and so does their number.
pub open spec fn fits_habit_store(v: HabitStoreView) -> bool {
    &&& v.habits.len() <= u64::MAX
    &&& fits_habits(v.habits)
}

/// Round trip: parsing the rendering of a well-formed habit store gives
/// back an equal store.
pub proof fn lemma_habit_store_round_trip(v: HabitStoreView)
    requires
        habit_store_wf(v),
        fits_habit_store(v),
    ensures
        parse_habit_store(render_habit_store(v)) == Some(v),
{
    let t = render_habit_store(v);
    let rc = render_u64(v.current_id as u64);
    let rk = render_u64(v.habits.len() as u64);
    let rh = render_habits(v.habits);
    lemma_render_u64_len(v.current_id as u64);
    lemma_render_u64_len(v.habits.len() as u64);
    assert(t == rc + (rk + rh)) by {
        assert(rc + rk + rh =~= rc + (rk + rh));
    }
    assert(t.subrange(0, t.len() as int) =~= t);
    lemma_split_window(t, 0, rc, rk + rh);
    lemma_parse_u64_render(t, 0, v.current_id as u64);
    assert((v.current_id as u64) as u32 == v.current_id);
    lemma_split_window(t, 16, rk, rh);
    lemma_parse_u64_render(t, 16, v.habits.len() as u64);
    assert((v.habits.len() as u64) as nat == v.habits.len());
    lemma_parse_habits_render(t, 32, v.habits);
}

fn streak_tag_exec(s: &Streak) -> (t: u64)
    ensures
        t == streak_tag(*s),
{
    match s {
        Streak::Daily => 0,
        Streak::Weekly => 1,
        Streak::Monthly => 2,
    }
}

fn streak_of_tag_exec(t: u64) -> (r: Option<Streak>)
    ensures
        r == streak_of_tag(t),
{
    if t == 0 {
        Some(Streak::Daily)
    } else if t == 1 {
        Some(Streak::Weekly)
    } else if t == 2 {
        Some(Streak::Monthly)
    } else {
        None
    }
}

fn difficulty_tag_exec(d: &Difficulty) -> (t: u64)
    ensures
        t == difficulty_tag(*d),
{
    match d {
        Difficulty::Trivial => 0,
        Difficulty::Easy => 1,
        Difficulty::Medium => 2,
        Difficulty::Hard => 3,
    }
}

fn difficulty_of_tag_exec(t: u64) -> (r: Option<Difficulty>)
    ensures
        r == difficulty_of_tag(t),
{
    if t == 0 {
        Some(Difficulty::Trivial)
    } else if t == 1 {
        Some(Difficulty::Easy)
    } else if t == 2 {
        Some(Difficulty::Medium)
    } else if t == 3 {
        Some(Difficulty::Hard)
    } else {
        None
    }
}

fn kind_tag_exec(k: &Kind) -> (t: u64)
    ensures
        t == kind_tag(*k),
{
    match k {
        Kind::Positive => 0,
        Kind::Negative => 1,
    }
}

fn kind_of_tag_exec(t: u64) -> (r: Option<Kind>)
    ensures
        r == kind_of_tag(t),
{
    if t == 0 {
        Some(Kind::Positive)
    } else if t == 1 {
        Some(Kind::Negative)
    } else {
        None
    }
}

fn bool_of_tag_exec(t: u64) -> (r: Option<bool>)
    ensures
        r == bool_of_tag(t),
{
    if t == 0 {
        Some(false)
    } else if t == 1 {
        Some(true)
    } else {
        None
    }
}

/// Appends the rendering of one habit.
#[verifier::rlimit(50)]
fn render_habit_exec(out: &mut String, h: &Habit)
    ensures
        final(out)@ == old(out)@ + render_habit(h@),
{
    render_u64_exec(out, h.id as u64);
    render_str_exec(out, h.name.0.as_str());
    render_u64_exec(out, h.quantum.bits);
    render_str_exec(out, h.unit.0.as_str());
    render_str_exec(out, h.notes.as_str());
    let st = streak_tag_exec(&h.streak);
    render_u64_exec(out, st);
    let dt = difficulty_tag_exec(&h.difficulty);
    render_u64_exec(out, dt);
    let kt = kind_tag_exec(&h.kind);
    render_u64_exec(out, kt);
    render_u64_exec(out, if h.active { 1 } else { 0 });
    proof {
        assert(out@ =~= old(out)@ + render_habit(h@));
    }
}

/// Reads one habit at `p`, as `parse_habit_at` describes.
fn parse_habit_exec(t: &str, p: usize, tlen: usize) -> (r: Option<(Habit, usize)>)
    requires
        tlen == t@.len(),
        p <= tlen,
    ensures
        match r {
            Some((h, p2)) => parse_habit_at(t@, p as int) == Some((h@, p2 as int)) && p2 <= tlen,
            None => parse_habit_at(t@, p as int) is None,
        },
{
    let (id64, p1) = match parse_u64_exec(t, p, tlen) {
        Some(x) => x,
        None => {
            return None;
        },
    };
    if id64 > u32::MAX as u64 {
        return None;
    }
    let (name_s, p2) = match parse_str_exec(t, p1, tlen) {
        Some(x) => x,
        None => {
            return None;
        },
    };
    let (quantum, p3) = match parse_u64_exec(t, p2, tlen) {
        Some(x) => x,
        None => {
            return None;
        },
    };
    let (unit_s, p4) = match parse_str_exec(t, p3, tlen) {
        Some(x) => x,
        None => {
            return None;
        },
    };
    let (notes_s, p5) = match parse_str_exec(t, p4, tlen) {
        Some(x) => x,
        None => {
            return None;
        },
    };
    let (st, p6) = match parse_u64_exec(t, p5, tlen) {
        Some(x) => x,
        None => {
            return None;
        },
    };
    let streak = match streak_of_tag_exec(st) {
        Some(x) => x,
        None => {
            return None;
        },
    };
    let (dt, p7) = match parse_u64_exec(t, p6, tlen) {
        Some(x) => x,
        None => {
            return None;
        },
    };
    let difficulty = match difficulty_of_tag_exec(dt) {
        Some(x) => x,
        None => {
            return None;
        },
    };
    let (kt, p8) = match parse_u64_exec(t, p7, tlen) {
        Some(x) => x,
        None => {
            return None;
        },
    };
    let kind = match kind_of_tag_exec(kt) {
        Some(x) => x,
        None => {
            return None;
        },
    };
    let (at, p9) = match parse_u64_exec(t, p8, tlen) {
        Some(x) => x,
        None => {
            return None;
        },
    };
    let active = match bool_of_tag_exec(at) {
        Some(x) => x,
        None => {
            return None;
        },
    };
    let habit = Habit {
        id: id64 as u32,
        name: HabitName(name_s),
        quantum: Quantum { bits: quantum },
        unit: HabitUnit(unit_s),
        notes: notes_s,
        streak,
        difficulty,
        kind,
        active,
    };
    Some((habit, p9))
}

/// Renders a habit store to its persisted text.
pub fn habit_store_to_text(s: &HabitStore) -> (out: String)
    ensures
        out@ == render_habit_store(s@),
{
    let mut out = String::new();
    render_u64_exec(&mut out, s.counter() as u64);
    let data = s.entries();
    let n = data.len();
    proof {
        assert(data.deep_view().len() == n);
    }
    render_u64_exec(&mut out, n as u64);
    let mut i: usize = 0;
    while i < n
        invariant
            i <= n,
            n == data@.len(),
            data.deep_view() == s@.habits,
            n == s@.habits.len(),
            out@ == render_u64(s@.current_id as u64) + render_u64(s@.habits.len() as u64)
                + render_habits(s@.habits.subrange(0, i as int)),
        decreases n - i,
    {
        let ghost prefix = s@.habits.subrange(0, i as int);
        render_habit_exec(&mut out, &data[i]);
        proof {
            assert(data@[i as int]@ == s@.habits[i as int]);
            lemma_render_habits_push(prefix, s@.habits[i as int]);
            assert(prefix.push(s@.habits[i as int]) =~= s@.habits.subrange(0, i as int + 1));
            assert(out@ =~= render_u64(s@.current_id as u64) + render_u64(
                s@.habits.len() as u64,
            ) + render_habits(s@.habits.subrange(0, i as int + 1)));
        }
        i = i + 1;
    }
    proof {
        assert(s@.habits.subrange(0, n as int) =~= s@.habits);
    }
    out
}


/// Checks the store invariant over freshly parsed habits: identifiers
/// issued (at least one, at most the counter) and strictly increasing.
fn check_habit_ids(habits: &Vec<Habit>, cid: u32) -> (ok: bool)
    ensures
        ok == habit_store_wf(HabitStoreView { current_id: cid, habits: habits.deep_view() }),
{
    let ghost s = habits.deep_view();
    let n = habits.len();
    let mut i: usize = 0;
    while i < n
        invariant
            i <= n,
            n == habits@.len(),
            s == habits.deep_view(),
            forall|k: int| 0 <= k < i ==> 1 <= (#[trigger] s[k]).id <= cid,
            forall|a: int, b: int|
                0 <= a < b < i ==> (#[trigger] s[a]).id < (#[trigger] s[b]).id,
        decreases n - i,
    {
        proof {
            assert(s[i as int] == habits@[i as int]@);
        }
        let h_id = habits[i].id;
        if h_id < 1 || h_id > cid {
            proof {
                assert(s[i as int].id == h_id);
            }
            return false;
        }
        if i > 0 {
            proof {
                assert(s[i as int - 1] == habits@[i as int - 1]@);
            }
            if habits[i - 1].id >= h_id {
                return false;
            }
            proof {
                assert forall|a: int| 0 <= a < i implies (#[trigger] s[a]).id < s[i as int].id by {
                    if a < i as int - 1 {
                        assert(s[a].id < s[i as int - 1].id);
                    }
                }
            }
        }
        i = i + 1;
    }
    true
}

/// Parses a habit store from its persisted text; any malformed text, and
/// any text denoting an ill-formed store, yields nothing.
#[verifier::rlimit(50)]
pub fn habit_store_from_text(t: &str) -> (r: Option<HabitStore>)
    ensures
        match r {
            Some(s) => parse_habit_store(t@) == Some(s@) && s.wf(),
            None => parse_habit_store(t@) is None,
        },
{
    let tlen = t.unicode_len();
    let (cid64, p1) = match parse_u64_exec(t, 0, tlen) {
        Some(x) => x,
        None => {
            return None;
        },
    };
    if cid64 > u32::MAX as u64 {
        return None;
    }
    let cid = cid64 as u32;
    let (k64, p2) = match parse_u64_exec(t, p1, tlen) {
        Some(x) => x,
        None => {
            return None;
        },
    };
    let mut habits: Vec<Habit> = Vec::new();
    let mut p = p2;
    let mut j: u64 = 0;
    while j < k64
        invariant
            j <= k64,
            p <= tlen,
            tlen == t@.len(),
            parse_u64_at(t@, 0) == Some((cid64, p1 as int)),
            cid64 <= u32::MAX as u64,
            parse_u64_at(t@, p1 as int) == Some((k64, p2 as int)),
            match parse_habits_at(t@, p as int, (k64 - j) as nat) {
                None => parse_habits_at(t@, p2 as int, k64 as nat) is None,
                Some((rest, pe)) => parse_habits_at(t@, p2 as int, k64 as nat) == Some(
                    (habits.deep_view() + rest, pe),
                ),
            },
        decreases k64 - j,
    {
        match parse_habit_exec(t, p, tlen) {
            None => {
                proof {
                    assert(parse_habits_at(t@, p as int, (k64 - j) as nat) is None);
                }
                return None;
            },
            Some((h, pn)) => {
                let ghost hv = h@;
                proof {
                    let kk = (k64 - j) as nat;
                    match parse_habits_at(t@, pn as int, (kk - 1) as nat) {
                        None => {
                            assert(parse_habits_at(t@, p as int, kk) is None);
                        },
                        Some((rest2, pe)) => {
                            assert(parse_habits_at(t@, p as int, kk) == Some(
                                (seq![hv] + rest2, pe),
                            ));
                            assert(habits.deep_view() + (seq![hv] + rest2) =~= habits.deep_view()
                                .push(hv) + rest2);
                        },
                    }
                }
                let ghost acc_old = habits.deep_view();
                habits.push(h);
                proof {
                    assert(habits.deep_view() =~= acc_old.push(hv));
                }
                p = pn;
                j = j + 1;
            },
        }
    }
    proof {
        assert(parse_habits_at(t@, p as int, 0) == Some((Seq::<HabitView>::empty(), p as int)));
        assert(habits.deep_view() + Seq::<HabitView>::empty() =~= habits.deep_view());
    }
    if p != tlen {
        return None;
    }
    if !check_habit_ids(&habits, cid) {
        return None;
    }
    let s = HabitStore::from_parts(cid, habits);
    Some(s)
}

/// Casting a year to its unsigned bit pattern and back gives the year.
pub proof fn lemma_year_roundtrip(y: i32)
    ensures
        ((y as u32) as i32) == y,
{
    assert(((y as u32) as i32) == y) by (bit_vector);
}

/// A log entry renders as its entry identifier, the referenced habit
/// identifier, the quantum, the notes, and the date as year (by its
/// unsigned bit pattern), month, day.
pub open spec fn render_entry(e: (u32, LogView)) -> Seq<char> {
    render_u64(e.0 as u64) + (render_u64(e.1.id as u64) + (render_u64(e.1.quantum) + (render_str(
        e.1.notes,
    ) + (render_u64((e.1.date.year as u32) as u64) + (render_u64(e.1.date.month as u64)
        + render_u64(e.1.date.day as u64))))))
}

/// Reads one log entry at `p`; an identifier or date part out of its
/// range is a parse failure.
pub open spec fn parse_entry_at(t: Seq<char>, p: int) -> Option<((u32, LogView), int)> {
    match parse_u64_at(t, p) {
        None => None,
        Some((key, p1)) => if key > u32::MAX as u64 {
            None
        } else {
            match parse_u64_at(t, p1) {
                None => None,
                Some((id, p2)) => if id > u32::MAX as u64 {
                    None
                } else {
                    match parse_u64_at(t, p2) {
                        None => None,
                        Some((quantum, p3)) => match parse_str_at(t, p3) {
                            None => None,
                            Some((notes, p4)) => match parse_u64_at(t, p4) {
                                None => None,
                                Some((yr, p5)) => if yr > u32::MAX as u64 {
                                    None
                                } else {
                                    match parse_u64_at(t, p5) {
                                        None => None,
                                        Some((mo, p6)) => if mo > u8::MAX as u64 {
                                            None
                                        } else {
                                            match parse_u64_at(t, p6) {
                                                None => None,
                                                Some((dy, p7)) => if dy > u8::MAX as u64 {
                                                    None
                                                } else {
                                                    Some(
                                                        (
                                                            (
                                                                key as u32,
                                                                LogView {
                                                                    id: id as u32,
                                                                    quantum,
                                                                    notes,
                                                                    date: Date {
                                                                        year: (yr as u32) as i32,
                                                                        month: mo as u8,
                                                                        day: dy as u8,
                                                                    },
                                                                },
                                                            ),
                                                            p7,
                                                        ),
                                                    )
                                                },
                                            }
                                        },
                                    }
                                },
                            },
                        },
                    }
                },
            }
        },
    }
}

pub open spec fn fits_entry(e: (u32, LogView)) -> bool {
    e.1.notes.len() <= u64::MAX
}

pub proof fn lemma_render_entry_len(e: (u32, LogView))
    ensures
        render_entry(e).len() == 112 + e.1.notes.len(),
{
    lemma_render_u64_len(e.0 as u64);
    lemma_render_u64_len(e.1.id as u64);
    lemma_render_u64_len(e.1.quantum);
    lemma_render_str_len(e.1.notes);
    lemma_render_u64_len((e.1.date.year as u32) as u64);
    lemma_render_u64_len(e.1.date.month as u64);
    lemma_render_u64_len(e.1.date.day as u64);
}

/// Parsing at a position where a rendered entry stands gives it back.
pub proof fn lemma_parse_entry_render(t: Seq<char>, p: int, e: (u32, LogView))
    requires
        0 <= p,
        p + render_entry(e).len() <= t.len(),
        t.subrange(p, p + render_entry(e).len() as int) == render_entry(e),
        fits_entry(e),
    ensures
        parse_entry_at(t, p) == Some((e, p + render_entry(e).len())),
{
    lemma_render_entry_len(e);
    let r1 = render_u64(e.0 as u64);
    let r2 = render_u64(e.1.id as u64);
    let r3 = render_u64(e.1.quantum);
    let r4 = render_str(e.1.notes);
    let r5 = render_u64((e.1.date.year as u32) as u64);
    let r6 = render_u64(e.1.date.month as u64);
    let r7 = render_u64(e.1.date.day as u64);
    lemma_render_u64_len(e.0 as u64);
    lemma_render_u64_len(e.1.id as u64);
    lemma_render_u64_len(e.1.quantum);
    lemma_render_str_len(e.1.notes);
    lemma_render_u64_len((e.1.date.year as u32) as u64);
    lemma_render_u64_len(e.1.date.month as u64);
    lemma_render_u64_len(e.1.date.day as u64);
    let s7 = r7;
    let s6 = r6 + s7;
    let s5 = r5 + s6;
    let s4 = r4 + s5;
    let s3 = r3 + s4;
    let s2 = r2 + s3;
    assert(render_entry(e) == r1 + s2);
    let o1 = p + 16;
    let o2 = o1 + 16;
    let o3 = o2 + 16;
    let o4 = o3 + 16 + e.1.notes.len() as int;
    let o5 = o4 + 16;
    let o6 = o5 + 16;
    let o7 = o6 + 16;
    lemma_split_window(t, p, r1, s2);
    lemma_parse_u64_render(t, p, e.0 as u64);
    assert((e.0 as u64) as u32 == e.0);
    lemma_split_window(t, o1, r2, s3);
    lemma_parse_u64_render(t, o1, e.1.id as u64);
    assert((e.1.id as u64) as u32 == e.1.id);
    lemma_split_window(t, o2, r3, s4);
    lemma_parse_u64_render(t, o2, e.1.quantum);
    lemma_split_window(t, o3, r4, s5);
    lemma_parse_str_render(t, o3, e.1.notes);
    lemma_split_window(t, o4, r5, s6);
    lemma_parse_u64_render(t, o4, (e.1.date.year as u32) as u64);
    assert(((e.1.date.year as u32) as u64) as u32 == e.1.date.year as u32);
    lemma_year_roundtrip(e.1.date.year);
    lemma_split_window(t, o5, r6, s7);
    lemma_parse_u64_render(t, o5, e.1.date.month as u64);
    assert((e.1.date.month as u64) as u8 == e.1.date.month);
    lemma_parse_u64_render(t, o6, e.1.date.day as u64);
    assert((e.1.date.day as u64) as u8 == e.1.date.day);
}

/// An entry sequence renders as the entries in order.
pub open spec fn render_entries(s: Seq<(u32, LogView)>) -> Seq<char>
    decreases s.len(),
{
    if s.len() == 0 {
        Seq::empty()
    } else {
        render_entry(s[0]) + render_entries(s.drop_first())
    }
}

pub proof fn lemma_render_entries_push(s: Seq<(u32, LogView)>, e: (u32, LogView))
    ensures
        render_entries(s.push(e)) == render_entries(s) + render_entry(e),
    decreases s.len(),
{
    if s.len() == 0 {
        assert(s.push(e).drop_first() =~= Seq::<(u32, LogView)>::empty());
        assert(s.push(e)[0] == e);
        assert(render_entries(s.push(e)) == render_entry(e) + render_entries(
            Seq::<(u32, LogView)>::empty(),
        ));
        assert(render_entry(e) + Seq::<char>::empty() =~= render_entry(e));
        assert(s =~= Seq::<(u32, LogView)>::empty());
        assert(Seq::<char>::empty() + render_entry(e) =~= render_entry(e));
    } else {
        assert(s.push(e).drop_first() =~= s.drop_first().push(e));
        lemma_render_entries_push(s.drop_first(), e);
        assert(s.push(e)[0] == s[0]);
        assert(render_entry(s[0]) + (render_entries(s.drop_first()) + render_entry(e)) =~= (
        render_entry(s[0]) + render_entries(s.drop_first())) + render_entry(e));
    }
}

/// Reads `k` log entries one after another from `p`.
pub open spec fn parse_entries_at(t: Seq<char>, p: int, k: nat) -> Option<
    (Seq<(u32, LogView)>, int),
>
    decreases k,
{
    if k == 0 {
        Some((Seq::empty(), p))
    } else {
        match parse_entry_at(t, p) {
            None => None,
            Some((e, p2)) => match parse_entries_at(t, p2, (k - 1) as nat) {
                None => None,
                Some((rest, p3)) => Some((seq![e] + rest, p3)),
            },
        }
    }
}

pub open spec fn fits_entries(s: Seq<(u32, LogView)>) -> bool {
    forall|i: int| 0 <= i < s.len() ==> fits_entry(#[trigger] s[i])
}

/// Parsing at a position where a rendered entry sequence stands gives it
/// back.
pub proof fn lemma_parse_entries_render(t: Seq<char>, p: int, s: Seq<(u32, LogView)>)
    requires
        0 <= p,
        p + render_entries(s).len() <= t.len(),
        t.subrange(p, p + render_entries(s).len() as int) == render_entries(s),
        fits_entries(s),
    ensures
        parse_entries_at(t, p, s.len()) == Some((s, p + render_entries(s).len())),
    decreases s.len(),
{
    if s.len() == 0 {
        assert(s =~= Seq::<(u32, LogView)>::empty());
    } else {
        let r0 = render_entry(s[0]);
        let rest = render_entries(s.drop_first());
        let whole = render_entries(s);
        assert(whole == r0 + rest);
        lemma_split_window(t, p, r0, rest);
        lemma_parse_entry_render(t, p, s[0]);
        let p1 = p + r0.len() as int;
        assert(fits_entries(s.drop_first())) by {
            assert(forall|i: int|
                0 <= i < s.drop_first().len() ==> #[trigger] s.drop_first()[i] == s[i + 1]);
        }
        lemma_parse_entries_render(t, p1, s.drop_first());
        assert(seq![s[0]] + s.drop_first() =~= s);
    }
}

/// A log store renders as its counter, the entry count, then the entries.
pub open spec fn render_log_store(v: LogStoreView) -> Seq<char> {
    render_u64(v.current_id as u64) + render_u64(v.entries.len() as u64) + render_entries(
        v.entries,
    )
}

/// Reads a whole log-store text: counter, count, entries, nothing after;
/// the result must be well-formed.
pub open spec fn parse_log_store(t: Seq<char>) -> Option<LogStoreView> {
    match parse_u64_at(t, 0) {
        None => None,
        Some((cid, p1)) => if cid > u32::MAX as u64 {
            None
        } else {
            match parse_u64_at(t, p1) {
                None => None,
                Some((k, p2)) => match parse_entries_at(t, p2, k as nat) {
                    None => None,
                    Some((entries, p3)) => if p3 == t.len() {
                        let v = LogStoreView { current_id: cid as u32, entries };
                        if log_store_wf(v) {
                            Some(v)
                        } else {
                            None
                        }
                    } else {
                        None
                    },
                },
            }
        },
    }
}

pub open spec fn fits_log_store(v: LogStoreView) -> bool {
    &&& v.entries.len() <= u64::MAX
    &&& fits_entries(v.entries)
}

/// Round trip: parsing the rendering of a well-formed log store gives
/// back an equal store.
pub proof fn lemma_log_store_round_trip(v: LogStoreView)
    requires
        log_store_wf(v),
        fits_log_store(v),
    ensures
        parse_log_store(render_log_store(v)) == Some(v),
{
    let t = render_log_store(v);
    let rc = render_u64(v.current_id as u64);
    let rk = render_u64(v.entries.len() as u64);
    let rh = render_entries(v.entries);
    lemma_render_u64_len(v.current_id as u64);
    lemma_render_u64_len(v.entries.len() as u64);
    assert(t == rc + (rk + rh)) by {
        assert(rc + rk + rh =~= rc + (rk + rh));
    }
    assert(t.subrange(0, t.len() as int) =~= t);
    lemma_split_window(t, 0, rc, rk + rh);
    lemma_parse_u64_render(t, 0, v.current_id as u64);
    assert((v.current_id as u64) as u32 == v.current_id);
    lemma_split_window(t, 16, rk, rh);
    lemma_parse_u64_render(t, 16, v.entries.len() as u64);
    assert((v.entries.len() as u64) as nat == v.entries.len());
    lemma_parse_entries_render(t, 32, v.entries);
}

/// Appends the rendering of one log entry.
#[verifier::rlimit(50)]
fn render_entry_exec(out: &mut String, key: u32, l: &HabitLog)
    ensures
        final(out)@ == old(out)@ + render_entry((key, l@)),
{
    render_u64_exec(out, key as u64);
    render_u64_exec(out, l.id as u64);
    render_u64_exec(out, l.quantum.bits);
    render_str_exec(out, l.notes.as_str());
    render_u64_exec(out, (l.date.year as u32) as u64);
    render_u64_exec(out, l.date.month as u64);
    render_u64_exec(out, l.date.day as u64);
    proof {
        assert(out@ =~= old(out)@ + render_entry((key, l@)));
    }
}

/// Reads one log entry at `p`, as `parse_entry_at` describes.
fn parse_entry_exec(t: &str, p: usize, tlen: usize) -> (r: Option<((u32, HabitLog), usize)>)
    requires
        tlen == t@.len(),
        p <= tlen,
    ensures
        match r {
            Some((e, p2)) => parse_entry_at(t@, p as int) == Some(((e.0, e.1@), p2 as int)) && p2
                <= tlen,
            None => parse_entry_at(t@, p as int) is None,
        },
{
    let (key64, p1) = match parse_u64_exec(t, p, tlen) {
        Some(x) => x,
        None => {
            return None;
        },
    };
    if key64 > u32::MAX as u64 {
        return None;
    }
    let (id64, p2) = match parse_u64_exec(t, p1, tlen) {
        Some(x) => x,
        None => {
            return None;
        },
    };
    if id64 > u32::MAX as u64 {
        return None;
    }
    let (quantum, p3) = match parse_u64_exec(t, p2, tlen) {
        Some(x) => x,
        None => {
            return None;
        },
    };
    let (notes_s, p4) = match parse_str_exec(t, p3, tlen) {
        Some(x) => x,
        None => {
            return None;
        },
    };
    let (yr64, p5) = match parse_u64_exec(t, p4, tlen) {
        Some(x) => x,
        None => {
            return None;
        },
    };
    if yr64 > u32::MAX as u64 {
        return None;
    }
    let (mo64, p6) = match parse_u64_exec(t, p5, tlen) {
        Some(x) => x,
        None => {
            return None;
        },
    };
    if mo64 > u8::MAX as u64 {
        return None;
    }
    let (dy64, p7) = match parse_u64_exec(t, p6, tlen) {
        Some(x) => x,
        None => {
            return None;
        },
    };
    if dy64 > u8::MAX as u64 {
        return None;
    }
    let log = HabitLog {
        id: id64 as u32,
        quantum: Quantum { bits: quantum },
        notes: notes_s,
        date: Date { year: (yr64 as u32) as i32, month: mo64 as u8, day: dy64 as u8 },
    };
    Some(((key64 as u32, log), p7))
}

/// Renders a log store to its persisted text.
pub fn log_store_to_text(s: &HabitLogStore) -> (out: String)
    ensures
        out@ == render_log_store(s@),
{
    let mut out = String::new();
    render_u64_exec(&mut out, s.counter() as u64);
    let data = s.entries();
    let n = data.len();
    proof {
        assert(data.deep_view().len() == n);
    }
    render_u64_exec(&mut out, n as u64);
    let mut i: usize = 0;
    while i < n
        invariant
            i <= n,
            n == data@.len(),
            data.deep_view() == s@.entries,
            n == s@.entries.len(),
            out@ == render_u64(s@.current_id as u64) + render_u64(s@.entries.len() as u64)
                + render_entries(s@.entries.subrange(0, i as int)),
        decreases n - i,
    {
        let ghost prefix = s@.entries.subrange(0, i as int);
        let e = &data[i];
        render_entry_exec(&mut out, e.0, &e.1);
        proof {
            assert(data@[i as int].deep_view() == s@.entries[i as int]);
            assert((e.0, e.1@) == s@.entries[i as int]);
            lemma_render_entries_push(prefix, s@.entries[i as int]);
            assert(prefix.push(s@.entries[i as int]) =~= s@.entries.subrange(0, i as int + 1));
            assert(out@ =~= render_u64(s@.current_id as u64) + render_u64(
                s@.entries.len() as u64,
            ) + render_entries(s@.entries.subrange(0, i as int + 1)));
        }
        i = i + 1;
    }
    proof {
        assert(s@.entries.subrange(0, n as int) =~= s@.entries);
    }
    out
}

/// Checks the store invariant over freshly parsed entries: entry
/// identifiers issued (at least one, at most the counter) and strictly
/// increasing.
fn check_entry_ids(entries: &Vec<(u32, HabitLog)>, cid: u32) -> (ok: bool)
    ensures
        ok == log_store_wf(LogStoreView { current_id: cid, entries: entries.deep_view() }),
{
    let ghost s = entries.deep_view();
    let n = entries.len();
    let mut i: usize = 0;
    while i < n
        invariant
            i <= n,
            n == entries@.len(),
            s == entries.deep_view(),
            forall|k: int| 0 <= k < i ==> 1 <= (#[trigger] s[k]).0 <= cid,
            forall|a: int, b: int|
                0 <= a < b < i ==> (#[trigger] s[a]).0 < (#[trigger] s[b]).0,
        decreases n - i,
    {
        proof {
            assert(s[i as int] == entries@[i as int].deep_view());
        }
        let e_id = entries[i].0;
        proof {
            assert(s[i as int].0 == entries@[i as int].0.deep_view());
            assert(s[i as int].0 == e_id);
        }
        if e_id < 1 || e_id > cid {
            proof {
                let v = LogStoreView { current_id: cid, entries: entries.deep_view() };
                assert(v.entries[i as int].0 == e_id);
                assert(!log_store_wf(v));
            }
            return false;
        }
        if i > 0 {
            proof {
                assert(s[i as int - 1] == entries@[i as int - 1].deep_view());
                assert(s[i as int - 1].0 == entries@[i as int - 1].0.deep_view());
            }
            if entries[i - 1].0 >= e_id {
                proof {
                    let v = LogStoreView { current_id: cid, entries: entries.deep_view() };
                    assert(v.entries[i as int - 1].0 >= v.entries[i as int].0);
                    assert(!log_store_wf(v));
                }
                return false;
            }
            proof {
                assert forall|a: int| 0 <= a < i implies (#[trigger] s[a]).0 < s[i as int].0 by {
                    if a < i as int - 1 {
                        assert(s[a].0 < s[i as int - 1].0);
                    }
                }
            }
        }
        i = i + 1;
    }
    true
}

/// Parses a log store from its persisted text; any malformed text, and
/// any text denoting an ill-formed store, yields nothing.
#[verifier::rlimit(50)]
pub fn log_store_from_text(t: &str) -> (r: Option<HabitLogStore>)
    ensures
        match r {
            Some(s) => parse_log_store(t@) == Some(s@) && s.wf(),
            None => parse_log_store(t@) is None,
        },
{
    let tlen = t.unicode_len();
    let (cid64, p1) = match parse_u64_exec(t, 0, tlen) {
        Some(x) => x,
        None => {
            return None;
        },
    };
    if cid64 > u32::MAX as u64 {
        return None;
    }
    let cid = cid64 as u32;
    let (k64, p2) = match parse_u64_exec(t, p1, tlen) {
        Some(x) => x,
        None => {
            return None;
        },
    };
    let mut entries: Vec<(u32, HabitLog)> = Vec::new();
    let mut p = p2;
    let mut j: u64 = 0;
    while j < k64
        invariant
            j <= k64,
            p <= tlen,
            tlen == t@.len(),
            parse_u64_at(t@, 0) == Some((cid64, p1 as int)),
            cid64 <= u32::MAX as u64,
            parse_u64_at(t@, p1 as int) == Some((k64, p2 as int)),
            match parse_entries_at(t@, p as int, (k64 - j) as nat) {
                None => parse_entries_at(t@, p2 as int, k64 as nat) is None,
                Some((rest, pe)) => parse_entries_at(t@, p2 as int, k64 as nat) == Some(
                    (entries.deep_view() + rest, pe),
                ),
            },
        decreases k64 - j,
    {
        match parse_entry_exec(t, p, tlen) {
            None => {
                proof {
                    assert(parse_entries_at(t@, p as int, (k64 - j) as nat) is None);
                }
                return None;
            },
            Some((e, pn)) => {
                let ghost ev = (e.0, e.1@);
                proof {
                    let kk = (k64 - j) as nat;
                    match parse_entries_at(t@, pn as int, (kk - 1) as nat) {
                        None => {
                            assert(parse_entries_at(t@, p as int, kk) is None);
                        },
                        Some((rest2, pe)) => {
                            assert(parse_entries_at(t@, p as int, kk) == Some(
                                (seq![ev] + rest2, pe),
                            ));
                            assert(entries.deep_view() + (seq![ev] + rest2) =~= entries.deep_view()
                                .push(ev) + rest2);
                        },
                    }
                }
                let ghost acc_old = entries.deep_view();
                entries.push(e);
                proof {
                    assert(entries.deep_view() =~= acc_old.push(ev));
                }
                p = pn;
                j = j + 1;
            },
        }
    }
    proof {
        assert(parse_entries_at(t@, p as int, 0) == Some(
            (Seq::<(u32, LogView)>::empty(), p as int),
        ));
        assert(entries.deep_view() + Seq::<(u32, LogView)>::empty() =~= entries.deep_view());
    }
    if p != tlen {
        return None;
    }
    if !check_entry_ids(&entries, cid) {
        return None;
    }
    let s = HabitLogStore::from_parts(cid, entries);
    Some(s)
}

} // verus!
