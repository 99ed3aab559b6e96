//! The change token: a cheap, stable fingerprint of a local file.
//!
//! A token is the string `"<mtime_seconds>:<size_bytes>"`.  Consumers treat
//! it as opaque; its one load-bearing property is that two (mtime, size)
//! pairs yield the same token exactly when they are equal, so a change of
//! either field is always detected while a content-only change that preserves
//! both is not (a documented limitation of the design).

use vstd::prelude::*;

verus! {

/// The decimal digit character for `d`.
pub open spec fn digit_char(d: int) -> char {
    if d == 0 {
        '0'
    } else if d == 1 {
        '1'
    } else if d == 2 {
        '2'
    } else if d == 3 {
        '3'
    } else if d == 4 {
        '4'
    } else if d == 5 {
        '5'
    } else if d == 6 {
        '6'
    } else if d == 7 {
        '7'
    } else if d == 8 {
        '8'
    } else {
        '9'
    }
}

/// The value of a decimal digit character, `-1` for any other character.
pub open spec fn digit_val(c: char) -> int {
    if c == '0' {
        0
    } else if c == '1' {
        1
    } else if c == '2' {
        2
    } else if c == '3' {
        3
    } else if c == '4' {
        4
    } else if c == '5' {
        5
    } else if c == '6' {
        6
    } else if c == '7' {
        7
    } else if c == '8' {
        8
    } else if c == '9' {
        9
    } else {
        -1
    }
}

/// The decimal rendering of `n`, most significant digit first, without
/// leading zeros (`0` renders as `"0"`).
pub open spec fn dec_digits(n: nat) -> Seq<char>
    decreases n,
{
    if n < 10 {
        seq![digit_char(n as int)]
    } else {
        dec_digits(n / 10).push(digit_char((n % 10) as int))
    }
}

/// The number a digit sequence denotes, read most significant digit first.
pub open spec fn dec_val(s: Seq<char>) -> int
    decreases s.len(),
{
    if s.len() == 0 {
        0
    } else {
        dec_val(s.drop_last()) * 10 + digit_val(s.last())
    }
}

/// The token text for a file with modification time `mtime` and size `size`.
pub open spec fn token_seq(mtime: u64, size: u64) -> Seq<char> {
    dec_digits(mtime as nat) + seq![':'] + dec_digits(size as nat)
}

/// Reading the rendering of `n` back gives `n`: rendering loses nothing.
pub proof fn lemma_dec_val_of_digits(n: nat)
    ensures
        dec_val(dec_digits(n)) == n,
    decreases n,
{
    if n < 10 {
        let single = seq![digit_char(n as int)];
        assert(dec_digits(n) == single);
        assert(single.drop_last() =~= Seq::<char>::empty());
        assert(dec_val(Seq::<char>::empty()) == 0);
        assert(single.last() == digit_char(n as int));
        assert(dec_val(single) == dec_val(single.drop_last()) * 10 + digit_val(single.last()));
        assert(digit_val(digit_char(n as int)) == n);
    } else {
        lemma_dec_val_of_digits(n / 10);
        let prefix = dec_digits(n / 10);
        let whole = prefix.push(digit_char((n % 10) as int));
        assert(whole.drop_last() =~= prefix);
        assert(whole.last() == digit_char((n % 10) as int));
        assert(digit_val(digit_char((n % 10) as int)) == n % 10);
        assert(n / 10 * 10 + n % 10 == n) by {
            vstd::arithmetic::div_mod::lemma_fundamental_div_mod(n as int, 10);
        }
    }
}

/// Every character of a decimal rendering is a digit, never the separator.
pub proof fn lemma_dec_digits_no_colon(n: nat)
    ensures
        forall|i: int| 0 <= i < dec_digits(n).len() ==> #[trigger] dec_digits(n)[i] != ':',
    decreases n,
{
    if n < 10 {
    } else {
        lemma_dec_digits_no_colon(n / 10);
        let prefix = dec_digits(n / 10);
        assert(forall|i: int|
            0 <= i < dec_digits(n).len() ==> #[trigger] dec_digits(n)[i] == if i < prefix.len() {
                prefix[i]
            } else {
                digit_char((n % 10) as int)
            });
    }
}

/// Splitting at a separator that occurs in neither half is unambiguous.
proof fn lemma_sep_split_unique(a1: Seq<char>, b1: Seq<char>, a2: Seq<char>, b2: Seq<char>, sep: char)
    requires
        forall|i: int| 0 <= i < a1.len() ==> #[trigger] a1[i] != sep,
        forall|i: int| 0 <= i < a2.len() ==> #[trigger] a2[i] != sep,
        a1 + seq![sep] + b1 == a2 + seq![sep] + b2,
    ensures
        a1 == a2,
        b1 == b2,
{
    let t = a1 + seq![sep] + b1;
    assert(t[a1.len() as int] == sep);
    assert(t[a2.len() as int] == sep);
    if a1.len() < a2.len() {
        assert(t[a1.len() as int] == a2[a1.len() as int]);
        assert(false);
    }
    if a2.len() < a1.len() {
        assert(t[a2.len() as int] == a1[a2.len() as int]);
        assert(false);
    }
    let n = a1.len() as int;
    assert forall|i: int| 0 <= i < n implies a1[i] == a2[i] by {
        assert(t[i] == a1[i]);
        assert((a2 + seq![sep] + b2)[i] == a2[i]);
    }
    assert(a1 =~= a2);
    assert(t.len() == n + 1 + b1.len());
    assert(t.len() == (a2 + seq![sep] + b2).len());
    assert(t.len() == a2.len() + 1 + b2.len());
    assert(b1.len() == b2.len());
    assert forall|i: int| 0 <= i < b1.len() implies b1[i] == b2[i] by {
        assert(t[n + 1 + i] == b1[i]);
        assert((a2 + seq![sep] + b2)[n + 1 + i] == b2[i]);
    }
    assert(b1 =~= b2);
}

/// Two tokens are equal exactly when both the modification time and the size
/// are equal: a change of mtime alone, of size alone, or of both always
/// yields a different token, and preserving both always yields the same one.
pub proof fn lemma_token_distinguishes(m1: u64, s1: u64, m2: u64, s2: u64)
    ensures
        (token_seq(m1, s1) == token_seq(m2, s2)) <==> (m1 == m2 && s1 == s2),
{
    if token_seq(m1, s1) == token_seq(m2, s2) {
        lemma_dec_digits_no_colon(m1 as nat);
        lemma_dec_digits_no_colon(m2 as nat);
        lemma_sep_split_unique(
            dec_digits(m1 as nat),
            dec_digits(s1 as nat),
            dec_digits(m2 as nat),
            dec_digits(s2 as nat),
            ':',
        );
        lemma_dec_val_of_digits(m1 as nat);
        lemma_dec_val_of_digits(m2 as nat);
        lemma_dec_val_of_digits(s1 as nat);
        lemma_dec_val_of_digits(s2 as nat);
    }
}

/// The one-character string for the decimal digit `d`.
fn digit_str(d: u64) -> (s: &'static str)
    requires
        d < 10,
    ensures
        s@ =~= seq![digit_char(d as int)],
{
    proof {
        reveal_strlit("0");
        reveal_strlit("1");
        reveal_strlit("2");
        reveal_strlit("3");
        reveal_strlit("4");
        reveal_strlit("5");
        reveal_strlit("6");
        reveal_strlit("7");
        reveal_strlit("8");
        reveal_strlit("9");
    }
    if d == 0 {
        "0"
    } else if d == 1 {
        "1"
    } else if d == 2 {
        "2"
    } else if d == 3 {
        "3"
    } else if d == 4 {
        "4"
    } else if d == 5 {
        "5"
    } else if d == 6 {
        "6"
    } else if d == 7 {
        "7"
    } else if d == 8 {
        "8"
    } else {
        "9"
    }
}

/// Render `n` in decimal.
pub fn render_u64(n: u64) -> (s: String)
    ensures
        s@ == dec_digits(n as nat),
    decreases n,
{
    if n < 10 {
        digit_str(n).to_owned()
    } else {
        let mut s = render_u64(n / 10);
        s.append(digit_str(n % 10));
        proof {
            assert(s@ =~= dec_digits(n as nat));
        }
        s
    }
}

/// Build the change token for a file with the given modification time
/// (seconds since the Unix epoch) and size in bytes.
pub fn make_change_token(mtime: u64, size: u64) -> (t: String)
    ensures
        t@ == token_seq(mtime, size),
{
    proof {
        reveal_strlit(":");
    }
    let mut t = render_u64(mtime);
    t.append(":");
    let size_part = render_u64(size);
    t.append(size_part.as_str());
    proof {
        assert(t@ =~= token_seq(mtime, size));
    }
    t
}

} // verus!
