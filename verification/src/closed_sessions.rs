//! The recently-closed-sessions picker: relative close times, and moving the
//! selection through the filtered list.
use vstd::prelude::*;

use crate::text::{push_char, push_str};

verus! {

/// The decimal digit for `d < 10`.
pub open spec fn digit_char(d: nat) -> char {
    if d == 0 {
        '0'
    } else if d == 1 {
        '1'
    } else if d == 2 {
        '2'
    } else if d == 3 {
        '3'
    } else if d == 4 {
        '4'
    } else if d == 5 {
        '5'
    } else if d == 6 {
        '6'
    } else if d == 7 {
        '7'
    } else if d == 8 {
        '8'
    } else {
        '9'
    }
}

fn digit(d: u64) -> (c: char)
    requires
        d < 10,
    ensures
        c == digit_char(d as nat),
{
    if d == 0 {
        '0'
    } else if d == 1 {
        '1'
    } else if d == 2 {
        '2'
    } else if d == 3 {
        '3'
    } else if d == 4 {
        '4'
    } else if d == 5 {
        '5'
    } else if d == 6 {
        '6'
    } else if d == 7 {
        '7'
    } else if d == 8 {
        '8'
    } else {
        '9'
    }
}

/// `n` in decimal, without leading zeros.
pub open spec fn decimal(n: nat) -> Seq<char>
    decreases n,
{
    if n < 10 {
        seq![digit_char(n)]
    } else {
        decimal(n / 10).push(digit_char(n % 10))
    }
}

/// `n` written in decimal.
pub fn decimal_string(n: u64) -> (s: String)
    ensures
        s@ == decimal(n as nat),
{
    // Digits from the least significant one.
    let mut digits: Vec<char> = Vec::new();
    let mut m = n;
    assert(digits@.reverse() =~= Seq::<char>::empty());
    assert(decimal(n as nat) =~= decimal(m as nat) + digits@.reverse());
    loop
        invariant_except_break
            decimal(n as nat) == decimal(m as nat) + digits@.reverse(),
        ensures
            decimal(n as nat) == digits@.reverse(),
        decreases m,
    {
        if m < 10 {
            let ghost before = digits@;
            digits.push(digit(m));
            assert(digits@.drop_last() == before);
            assert(digits@.reverse() =~= seq![digit_char(m as nat)] + before.reverse());
            break;
        }
        let d = m % 10;
        let ghost before = digits@;
        digits.push(digit(d));
        assert(digits@.drop_last() == before);
        assert(decimal(m as nat) == decimal((m / 10) as nat).push(digit_char((m % 10) as nat)));
        assert(digits@.reverse() =~= seq![digit_char(d as nat)] + before.reverse());
        assert(decimal(m as nat) + before.reverse() =~= decimal((m / 10) as nat)
            + digits@.reverse());
        m = m / 10;
    }
    let mut s = String::new();
    let mut i = digits.len();
    assert(digits@.subrange(i as int, digits@.len() as int).reverse() =~= Seq::<char>::empty());
    while i > 0
        invariant
            0 <= i <= digits.len(),
            s@ == digits@.subrange(i as int, digits@.len() as int).reverse(),
        decreases i,
    {
        push_char(&mut s, digits[i - 1]);
        assert(digits@.subrange(i - 1, digits@.len() as int).reverse() =~= digits@.subrange(
            i as int,
            digits@.len() as int,
        ).reverse().push(digits@[i - 1]));
        i = i - 1;
    }
    assert(digits@.subrange(0, digits@.len() as int) =~= digits@);
    s
}

/// How long ago a session closed at `closed_at` was, seen at `now` (both in
/// seconds): `just now` under a minute, else whole minutes, hours or days.
pub open spec fn relative_time(now: u64, closed_at: u64) -> Seq<char> {
    let diff: nat = if now >= closed_at {
        (now - closed_at) as nat
    } else {
        0
    };
    if diff < 60 {
        "just now"@
    } else if diff < 3600 {
        decimal(diff / 60) + "m ago"@
    } else if diff < 86400 {
        decimal(diff / 3600) + "h ago"@
    } else {
        decimal(diff / 86400) + "d ago"@
    }
}

/// How long ago `closed_at` was at `now` (seconds since the Unix epoch).
pub fn relative_time_label(now: u64, closed_at: u64) -> (s: String)
    ensures
        s@ == relative_time(now, closed_at),
{
    let diff = now.saturating_sub(closed_at);
    if diff < 60 {
        "just now".to_string()
    } else if diff < 3600 {
        let mut s = decimal_string(diff / 60);
        push_str(&mut s, "m ago");
        s
    } else if diff < 86400 {
        let mut s = decimal_string(diff / 3600);
        push_str(&mut s, "h ago");
        s
    } else {
        let mut s = decimal_string(diff / 86400);
        push_str(&mut s, "d ago");
        s
    }
}

/// Calls `SystemTime::now` and gives the seconds since the Unix epoch (zero
/// before it); it depends on the clock, so nothing is claimed of it.
#[verifier::external_body]
fn unix_now_secs() -> u64 {
    std::time::SystemTime::now().duration_since(std::time::UNIX_EPOCH).unwrap_or_default().as_secs()
}

/// How long ago `epoch_secs` was, by the system clock.
pub fn format_relative_time(epoch_secs: u64) -> (s: String)
    ensures
        exists|now: u64| #[trigger] relative_time(now, epoch_secs) == s@,
{
    let now = unix_now_secs();
    let s = relative_time_label(now, epoch_secs);
    assert(relative_time(now, epoch_secs) == s@);
    s
}

/// The selection after one frame of the picker's keys, over `filtered_len`
/// listed sessions: zero when nothing is listed; else one up (stopping at the
/// top) and/or one down (stopping at the bottom), then kept in the list.
pub open spec fn navigated(selected: usize, filtered_len: usize, up: bool, down: bool) -> usize {
    if filtered_len == 0 {
        0
    } else {
        let a: int = if up && selected > 0 {
            selected - 1
        } else {
            selected as int
        };
        let b: int = if down {
            if a + 1 < filtered_len - 1 {
                a + 1
            } else {
                filtered_len - 1
            }
        } else {
            a
        };
        (if b < filtered_len - 1 {
            b
        } else {
            filtered_len - 1
        }) as usize
    }
}

/// Moves the picker's selection for the arrow keys pressed this frame.
pub fn navigate_selection(selected: usize, filtered_len: usize, up: bool, down: bool) -> (r: usize)
    ensures
        r == navigated(selected, filtered_len, up, down),
        filtered_len > 0 ==> r < filtered_len,
{
    if filtered_len == 0 {
        return 0;
    }
    let mut sel = selected;
    if up {
        sel = sel.saturating_sub(1);
    }
    if down {
        let next = if sel < usize::MAX {
            sel + 1
        } else {
            sel
        };
        sel = if next < filtered_len - 1 {
            next
        } else {
            filtered_len - 1
        };
    }
    if sel < filtered_len - 1 {
        sel
    } else {
        filtered_len - 1
    }
}

/// Moving the selection keeps it inside a non-empty list, and with no key
/// pressed only pulls an out-of-range selection back to the last entry.
pub proof fn lemma_selection_stays_in_list(selected: usize, filtered_len: usize, up: bool, down: bool)
    requires
        filtered_len > 0,
    ensures
        navigated(selected, filtered_len, up, down) < filtered_len,
        selected < filtered_len ==> navigated(selected, filtered_len, false, false) == selected,
        selected > 0 && selected < filtered_len ==> navigated(selected, filtered_len, true, false) == selected - 1,
        selected + 1 < filtered_len ==> navigated(selected, filtered_len, false, true) == selected + 1,
{
}

/// A closed session reads `just now` exactly when it closed less than a
/// minute ago (a close time in the future counts as now).
pub proof fn lemma_just_now_under_a_minute(now: u64, closed_at: u64)
    ensures
        (relative_time(now, closed_at) == "just now"@) <==> (now < closed_at || now - closed_at < 60),
{
    reveal_strlit("just now");
    let diff: nat = if now >= closed_at { (now - closed_at) as nat } else { 0 };
    if diff >= 60 {
        let d = if diff < 3600 {
            decimal(diff / 60) + "m ago"@
        } else if diff < 86400 {
            decimal(diff / 3600) + "h ago"@
        } else {
            decimal(diff / 86400) + "d ago"@
        };
        reveal_strlit("m ago");
        reveal_strlit("h ago");
        reveal_strlit("d ago");
        assert(d.last() == 'o');
        assert("just now"@.last() == 'w');
    }
}

} // verus!
