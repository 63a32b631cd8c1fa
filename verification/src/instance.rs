//! The single-instance rule: a lock file holds the process id of the
//! running instance, and a new instance exits while that process is alive.
use vstd::prelude::*;

use crate::clipboard::all_digits;
use crate::text::{chars_of, trim, trim_chars};

verus! {

/// The value of the decimal digits `d`.
pub open spec fn digits_value(d: Seq<char>) -> int
    decreases d.len(),
{
    if d.len() == 0 {
        0
    } else {
        digits_value(d.drop_last()) * 10 + (d.last() as int - '0' as int)
    }
}

/// What `u32::from_str` gives for `s`: an optional `+` sign, then one or
/// more decimal digits whose value fits in a `u32`; anything else (empty
/// text, a `-` sign, other characters, overflow) has no value.
pub open spec fn decimal_u32(s: Seq<char>) -> Option<u32> {
    let d = if s.len() > 0 && s[0] == '+' {
        s.drop_first()
    } else {
        s
    };
    if d.len() > 0 && all_digits(d) && digits_value(d) <= u32::MAX {
        Some(digits_value(d) as u32)
    } else {
        None
    }
}

/// The decimal digit for `d < 10`.
pub open spec fn decimal_digit(d: int) -> char {
    seq!['0', '1', '2', '3', '4', '5', '6', '7', '8', '9'][d]
}

/// `n` in decimal, as `Display` writes an unsigned integer.
pub open spec fn decimal_text(n: nat) -> Seq<char>
    decreases n,
{
    if n < 10 {
        seq![decimal_digit(n as int)]
    } else {
        decimal_text(n / 10).push(decimal_digit((n % 10) as int))
    }
}

/// Whether `p` occurs in `t` as a run of consecutive characters.
pub open spec fn occurs_in(t: Seq<char>, p: Seq<char>) -> bool {
    exists|i: int| 0 <= i && i + p.len() <= t.len() && #[trigger] t.subrange(i, i + p.len()) == p
}

/// The value of a decimal number written as `s` (see `decimal_u32`).
pub fn parse_u32(s: &Vec<char>) -> (r: Option<u32>)
    ensures
        r == decimal_u32(s@),
{
    let start: usize = if s.len() > 0 && s[0] == '+' {
        1
    } else {
        0
    };
    let ghost d = if s@.len() > 0 && s@[0] == '+' {
        s@.drop_first()
    } else {
        s@
    };
    assert(d =~= s@.skip(start as int));
    if start == s.len() {
        return None;
    }
    let mut value: u64 = 0;
    let mut over = false;
    let mut i: usize = start;
    assert(s@.subrange(start as int, start as int) =~= Seq::<char>::empty());
    while i < s.len()
        invariant
            start <= i <= s@.len(),
            d == s@.skip(start as int),
            d == (if s@.len() > 0 && s@[0] == '+' {
                s@.drop_first()
            } else {
                s@
            }),
            all_digits(s@.subrange(start as int, i as int)),
            !over ==> value == digits_value(s@.subrange(start as int, i as int)) && value
                <= u32::MAX,
            over ==> digits_value(s@.subrange(start as int, i as int)) > u32::MAX,
        decreases s.len() - i,
    {
        let c = s[i];
        let ghost pre = s@.subrange(start as int, i as int);
        let ghost post = s@.subrange(start as int, i + 1);
        assert(post.drop_last() =~= pre);
        assert(post.last() == c);
        if c < '0' || c > '9' {
            assert(d[i - start] == s@[i as int]);
            assert(!all_digits(d));
            return None;
        }
        assert forall|k: int| 0 <= k < post.len() implies '0' <= #[trigger] post[k] <= '9' by {
            if k < pre.len() {
                assert(post[k] == pre[k]);
            }
        }
        let digit = (c as u32 - '0' as u32) as u64;
        assert(digit as int == c as int - '0' as int);
        if !over {
            value = value * 10 + digit;
            if value > 0xffff_ffffu64 {
                over = true;
            }
        }
        i = i + 1;
    }
    assert(s@.subrange(start as int, s@.len() as int) =~= d);
    if over {
        None
    } else {
        Some(value as u32)
    }
}

/// The process id a lock file's text names: the text trimmed and read as
/// a decimal `u32`; none when the file could not be read (`None`) or does
/// not hold a number.
pub fn lock_holder(lock_text: Option<String>) -> (r: Option<u32>)
    ensures
        r == match lock_text {
            Some(s) => decimal_u32(trim(s@)),
            None => None,
        },
{
    match lock_text {
        Some(s) => {
            let cs = chars_of(s.as_str());
            let t = trim_chars(&cs);
            parse_u32(&t)
        },
        None => None,
    }
}

/// The decimal digit for `d < 10`.
fn digit_char(d: u32) -> (c: char)
    requires
        d < 10,
    ensures
        c == decimal_digit(d as int),
{
    match d {
        0 => '0',
        1 => '1',
        2 => '2',
        3 => '3',
        4 => '4',
        5 => '5',
        6 => '6',
        7 => '7',
        8 => '8',
        _ => '9',
    }
}

/// `n` in decimal.
pub fn decimal_chars(n: u32) -> (r: Vec<char>)
    ensures
        r@ == decimal_text(n as nat),
    decreases n,
{
    if n < 10 {
        let mut v: Vec<char> = Vec::new();
        v.push(digit_char(n));
        assert(v@ =~= seq![decimal_digit(n as int)]);
        v
    } else {
        let mut v = decimal_chars(n / 10);
        v.push(digit_char(n % 10));
        v
    }
}

/// Whether `p` occurs in `t`.
pub fn occurs(t: &Vec<char>, p: &Vec<char>) -> (r: bool)
    ensures
        r == occurs_in(t@, p@),
{
    if p.len() > t.len() {
        return false;
    }
    if p.len() == 0 {
        assert(t@.subrange(0, 0int + p@.len()) =~= p@);
        return true;
    }
    let n = t.len();
    let last = n - p.len();
    let mut i: usize = 0;
    while i <= last
        invariant
            n == t@.len(),
            last == t@.len() - p@.len(),
            0 < p@.len() <= t@.len(),
            i <= last + 1,
            forall|k: int| 0 <= k < i ==> #[trigger] t@.subrange(k, k + p@.len()) != p@,
        decreases last + 1 - i,
    {
        let mut j: usize = 0;
        while j < p.len() && t[i + j] == p[j]
            invariant
                n == t@.len(),
                i <= last,
                last == t@.len() - p@.len(),
                0 < p@.len() <= t@.len(),
                j <= p@.len(),
                forall|k: int| 0 <= k < j ==> t@[i + k] == p@[k],
            decreases p.len() - j,
        {
            j = j + 1;
        }
        if j == p.len() {
            assert(t@.subrange(i as int, i + p@.len()) =~= p@);
            return true;
        }
        assert(t@.subrange(i as int, i + p@.len())[j as int] != p@[j as int]);
        assert forall|k: int| 0 <= k < i + 1 implies #[trigger] t@.subrange(k, k + p@.len())
            != p@ by {
            if k == i {
                assert(t@.subrange(k, k + p@.len())[j as int] != p@[j as int]);
            }
        }
        i = i + 1;
    }
    false
}

/// Whether the text a process listing printed (`tasklist` output) shows
/// process id `pid`: its decimal digits occur somewhere in it.
pub fn tasklist_shows(output: &str, pid: u32) -> (r: bool)
    ensures
        r == occurs_in(output@, decimal_text(pid as nat)),
{
    let t = chars_of(output);
    let p = decimal_chars(pid);
    occurs(&t, &p)
}

/// Whether this instance may run: not while the lock names a process
/// (`holder`) that is still alive.
pub fn is_first_instance(holder: Option<u32>, holder_alive: bool) -> (r: bool)
    ensures
        r == !(holder is Some && holder_alive),
{
    !(holder.is_some() && holder_alive)
}

} // verus!
verus! {

/// Each decimal digit character stands for its own value.
pub proof fn lemma_decimal_digit(d: int)
    requires
        0 <= d < 10,
    ensures
        '0' <= decimal_digit(d) <= '9',
        decimal_digit(d) as int - '0' as int == d,
{
    let s = seq!['0', '1', '2', '3', '4', '5', '6', '7', '8', '9'];
    assert(s[0] == '0' && s[1] == '1' && s[2] == '2' && s[3] == '3' && s[4] == '4');
    assert(s[5] == '5' && s[6] == '6' && s[7] == '7' && s[8] == '8' && s[9] == '9');
}

/// The decimal text of `n` is nonempty, all digits, and has value `n`.
pub proof fn lemma_decimal_text_value(n: nat)
    ensures
        decimal_text(n).len() > 0,
        all_digits(decimal_text(n)),
        digits_value(decimal_text(n)) == n,
    decreases n,
{
    if n < 10 {
        lemma_decimal_digit(n as int);
        let t = decimal_text(n);
        assert(t.drop_last() =~= Seq::<char>::empty());
        assert(t.last() == decimal_digit(n as int));
        assert(digits_value(t.drop_last()) == 0);
        assert(digits_value(t) == n);
    } else {
        lemma_decimal_text_value(n / 10);
        lemma_decimal_digit((n % 10) as int);
        let t = decimal_text(n);
        assert(t.drop_last() =~= decimal_text(n / 10));
        assert(t.last() == decimal_digit((n % 10) as int));
        assert((n / 10) * 10 + n % 10 == n);
        assert(digits_value(t) == n);
        assert forall|i: int| 0 <= i < t.len() implies '0' <= #[trigger] t[i] <= '9' by {
            if i < t.len() - 1 {
                assert(t[i] == decimal_text(n / 10)[i]);
            }
        }
    }
}

/// The text searched for in a process listing reads back as the process
/// id: `u32::from_str` of the decimal form of `n` gives `n`, for every `n`.
pub proof fn lemma_decimal_text_round_trip(n: u32)
    ensures
        decimal_u32(decimal_text(n as nat)) == Some(n),
{
    lemma_decimal_text_value(n as nat);
    let t = decimal_text(n as nat);
    assert('0' <= t[0] <= '9');
}

/// `tasklist_shows` looks for the process id itself: a listing it accepts
/// for `pid` holds a run of characters that `u32::from_str` reads as `pid`.
pub proof fn lemma_tasklist_shows_pid(output: Seq<char>, pid: u32)
    ensures
        occurs_in(output, decimal_text(pid as nat)) ==> exists|i: int, len: int|
            0 <= i && 0 < len && i + len <= output.len() && #[trigger] decimal_u32(
                output.subrange(i, i + len),
            ) == Some(pid),
{
    lemma_decimal_text_round_trip(pid);
    if occurs_in(output, decimal_text(pid as nat)) {
        let p = decimal_text(pid as nat);
        let i = choose|i: int|
            0 <= i && i + p.len() <= output.len() && #[trigger] output.subrange(i, i + p.len())
                == p;
        lemma_decimal_text_value(pid as nat);
        assert(decimal_u32(output.subrange(i, i + p.len())) == Some(pid));
    }
}

} // verus!
