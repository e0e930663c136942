//! The schedule of a latency test: batches of appended messages, what each
//! message says, and when a batch is complete.

use vstd::prelude::*;
use vstd::string::StringExecFns;

verus! {

/// The character of the decimal digit `d`.
pub open spec fn digit_char(d: nat) -> char {
    if d == 0 {
        '0'
    } else if d == 1 {
        '1'
    } else if d == 2 {
        '2'
    } else if d == 3 {
        '3'
    } else if d == 4 {
        '4'
    } else if d == 5 {
        '5'
    } else if d == 6 {
        '6'
    } else if d == 7 {
        '7'
    } else if d == 8 {
        '8'
    } else {
        '9'
    }
}

/// The decimal numeral of `n`, the way an unsigned integer is displayed:
/// no sign, no leading zero.
pub open spec fn decimal(n: nat) -> Seq<char>
    decreases n,
{
    if n < 10 {
        seq![digit_char(n)]
    } else {
        decimal(n / 10).push(digit_char(n % 10))
    }
}

/// `c` is a decimal digit.
pub open spec fn is_digit(c: char) -> bool {
    '0' <= c <= '9'
}

/// Every character of `s` is a decimal digit.
pub open spec fn all_digits(s: Seq<char>) -> bool {
    forall|i: int| 0 <= i < s.len() ==> is_digit(#[trigger] s[i])
}

/// What message `i` of batch `batch` says in the test driven by subcommands.
pub open spec fn batch_message(batch: nat, i: nat) -> Seq<char> {
    "batch"@ + decimal(batch) + "msg"@ + decimal(i)
}

/// What message `i` of batch `batch` says in the round-trip test.
pub open spec fn roundtrip_message(batch: nat, i: nat) -> Seq<char> {
    "batch"@ + decimal(batch) + "_message"@ + decimal(i)
}

/// The one-character string of the decimal digit `d`.
fn digit_str(d: u64) -> (t: &'static str)
    requires
        d < 10,
    ensures
        t@ == seq![digit_char(d as nat)],
{
    if d == 0 {
        proof {
            reveal_strlit("0");
            assert("0"@ =~= seq!['0']);
        }
        "0"
    } else if d == 1 {
        proof {
            reveal_strlit("1");
            assert("1"@ =~= seq!['1']);
        }
        "1"
    } else if d == 2 {
        proof {
            reveal_strlit("2");
            assert("2"@ =~= seq!['2']);
        }
        "2"
    } else if d == 3 {
        proof {
            reveal_strlit("3");
            assert("3"@ =~= seq!['3']);
        }
        "3"
    } else if d == 4 {
        proof {
            reveal_strlit("4");
            assert("4"@ =~= seq!['4']);
        }
        "4"
    } else if d == 5 {
        proof {
            reveal_strlit("5");
            assert("5"@ =~= seq!['5']);
        }
        "5"
    } else if d == 6 {
        proof {
            reveal_strlit("6");
            assert("6"@ =~= seq!['6']);
        }
        "6"
    } else if d == 7 {
        proof {
            reveal_strlit("7");
            assert("7"@ =~= seq!['7']);
        }
        "7"
    } else if d == 8 {
        proof {
            reveal_strlit("8");
            assert("8"@ =~= seq!['8']);
        }
        "8"
    } else {
        proof {
            reveal_strlit("9");
            assert("9"@ =~= seq!['9']);
        }
        "9"
    }
}

/// Appends the decimal numeral of `n` to `s`.
fn push_decimal(s: &mut String, n: u64)
    ensures
        final(s)@ == old(s)@ + decimal(n as nat),
    decreases n,
{
    if n >= 10 {
        push_decimal(s, n / 10);
    }
    let d = digit_str(n % 10);
    let ghost mid = s@;
    s.append(d);
    proof {
        let c = digit_char((n % 10) as nat);
        assert(s@ =~= mid.push(c));
        if n >= 10 {
            assert(old(s)@ + decimal(n as nat) =~= (old(s)@ + decimal((n / 10) as nat)).push(c));
        } else {
            assert(old(s)@ + decimal(n as nat) =~= old(s)@.push(c));
        }
    }
}

/// The content of message `i` of batch `batch` in the test driven by
/// subcommands: `batch{batch}msg{i}`.
pub fn batch_message_content(batch: u64, i: u64) -> (content: String)
    ensures
        content@ == batch_message(batch as nat, i as nat),
{
    let mut s = String::new();
    s.append("batch");
    push_decimal(&mut s, batch);
    s.append("msg");
    push_decimal(&mut s, i);
    s
}

/// The content of message `i` of batch `batch` in the round-trip test:
/// `batch{batch}_message{i}`.
pub fn roundtrip_message_content(batch: u64, i: u64) -> (content: String)
    ensures
        content@ == roundtrip_message(batch as nat, i as nat),
{
    let mut s = String::new();
    s.append("batch");
    push_decimal(&mut s, batch);
    s.append("_message");
    push_decimal(&mut s, i);
    s
}

/// The number of messages sent once batch `batch` (counted from 1) of
/// `batch_size` messages each is sent.
pub fn total_messages(batch: u64, batch_size: u64) -> (total: u64)
    requires
        batch * batch_size <= u64::MAX,
    ensures
        total == batch * batch_size,
{
    batch * batch_size
}

/// Whether the test pauses after batch `batch` (counted from 1) of
/// `batches`: after every batch but the last.
pub fn pause_after(batch: u64, batches: u64) -> (pause: bool)
    ensures
        pause == (batch < batches),
{
    batch < batches
}

/// Whether a batch of `batch_size` messages is complete once `completed`
/// of them are confirmed.
pub fn batch_complete(completed: usize, batch_size: u64) -> (done: bool)
    ensures
        done == (completed >= batch_size),
{
    completed as u64 >= batch_size
}

/// A numeral is a nonempty string of digits.
proof fn lemma_decimal_digits(n: nat)
    ensures
        all_digits(decimal(n)),
        decimal(n).len() >= 1,
        n >= 10 ==> decimal(n).len() >= 2,
    decreases n,
{
    if n >= 10 {
        lemma_decimal_digits(n / 10);
        let d = decimal(n);
        assert forall|i: int| 0 <= i < d.len() implies is_digit(#[trigger] d[i]) by {
            if i < d.len() - 1 {
                assert(d[i] == decimal(n / 10)[i]);
            }
        }
    }
}

/// Different numbers have different numerals.
proof fn lemma_decimal_injective(a: nat, b: nat)
    requires
        decimal(a) == decimal(b),
    ensures
        a == b,
    decreases a,
{
    lemma_decimal_digits(a);
    lemma_decimal_digits(b);
    if a >= 10 && b >= 10 {
        assert(decimal(a).last() == digit_char(a % 10));
        assert(decimal(b).last() == digit_char(b % 10));
        assert(decimal(a).drop_last() =~= decimal(a / 10));
        assert(decimal(b).drop_last() =~= decimal(b / 10));
        lemma_decimal_injective(a / 10, b / 10);
    } else if a < 10 && b < 10 {
        assert(decimal(a)[0] == digit_char(a));
        assert(decimal(b)[0] == digit_char(b));
    }
}

/// Two strings made of the same prefix, a numeral, the same separator that
/// does not start with a digit, and a suffix, are equal only when their
/// numerals and their suffixes are.
proof fn lemma_split_at_separator(
    p: Seq<char>,
    sep: Seq<char>,
    d1: Seq<char>,
    e1: Seq<char>,
    d2: Seq<char>,
    e2: Seq<char>,
)
    requires
        all_digits(d1),
        all_digits(d2),
        sep.len() > 0,
        !is_digit(sep[0]),
        p + d1 + sep + e1 == p + d2 + sep + e2,
    ensures
        d1 == d2,
        e1 == e2,
{
    let c1 = p + d1 + sep + e1;
    let c2 = p + d2 + sep + e2;
    if d1.len() < d2.len() {
        assert(c1[p.len() + d1.len() as int] == sep[0]);
        assert(c2[p.len() + d1.len() as int] == d2[d1.len() as int]);
    } else if d2.len() < d1.len() {
        assert(c2[p.len() + d2.len() as int] == sep[0]);
        assert(c1[p.len() + d2.len() as int] == d1[d2.len() as int]);
    }
    assert(d1.len() == d2.len());
    let k: int = p.len() + d1.len() as int;
    assert(d1 =~= c1.subrange(p.len() as int, k));
    assert(d2 =~= c2.subrange(p.len() as int, k));
    assert(e1 =~= c1.subrange(k + sep.len(), c1.len() as int));
    assert(e2 =~= c2.subrange(k + sep.len(), c2.len() as int));
}

/// Every message of a test driven by subcommands has its own content: two
/// messages say the same only when they are the same message of the same
/// batch.
pub proof fn law_batch_messages_distinct(b1: nat, i1: nat, b2: nat, i2: nat)
    requires
        batch_message(b1, i1) == batch_message(b2, i2),
    ensures
        b1 == b2,
        i1 == i2,
{
    reveal_strlit("msg");
    lemma_decimal_digits(b1);
    lemma_decimal_digits(b2);
    lemma_split_at_separator("batch"@, "msg"@, decimal(b1), decimal(i1), decimal(b2), decimal(i2));
    lemma_decimal_injective(b1, b2);
    lemma_decimal_injective(i1, i2);
}

/// Every message of the round-trip test has its own content: two messages
/// say the same only when they are the same message of the same batch.
pub proof fn law_roundtrip_messages_distinct(b1: nat, i1: nat, b2: nat, i2: nat)
    requires
        roundtrip_message(b1, i1) == roundtrip_message(b2, i2),
    ensures
        b1 == b2,
        i1 == i2,
{
    reveal_strlit("_message");
    lemma_decimal_digits(b1);
    lemma_decimal_digits(b2);
    lemma_split_at_separator(
        "batch"@,
        "_message"@,
        decimal(b1),
        decimal(i1),
        decimal(b2),
        decimal(i2),
    );
    lemma_decimal_injective(b1, b2);
    lemma_decimal_injective(i1, i2);
}

} // verus!
