//! Decimal text for unsigned values: printing, parsing, and the proof that
//! parsing inverts printing. The wire codec and the store-key derivation both
//! build on these functions.
use vstd::prelude::*;

verus! {

/// True for the ten ASCII digit characters.
pub open spec fn is_digit_char(c: char) -> bool {
    48 <= c as u32 <= 57
}

/// The numeric value of an ASCII digit character.
pub open spec fn digit_val(c: char) -> nat {
    (c as u32 - 48) as nat
}

/// The ASCII digit character for a value below ten.
pub open spec fn char_of_digit(d: nat) -> char {
    if d == 0 {
        '0'
    } else if d == 1 {
        '1'
    } else if d == 2 {
        '2'
    } else if d == 3 {
        '3'
    } else if d == 4 {
        '4'
    } else if d == 5 {
        '5'
    } else if d == 6 {
        '6'
    } else if d == 7 {
        '7'
    } else if d == 8 {
        '8'
    } else {
        '9'
    }
}

/// The decimal text of `n`, most significant digit first, no sign and no
/// leading zero except for `n == 0` itself.
pub open spec fn spec_dec(n: nat) -> Seq<char>
    decreases n,
{
    if n < 10 {
        seq![char_of_digit(n)]
    } else {
        spec_dec(n / 10).push(char_of_digit(n % 10))
    }
}

proof fn lemma_char_of_digit_val(d: nat)
    requires
        d < 10,
    ensures
        is_digit_char(char_of_digit(d)),
        digit_val(char_of_digit(d)) == d,
{
}

/// Every character of a decimal text is a digit, and there is at least one.
pub proof fn lemma_dec_digits(n: nat)
    ensures
        spec_dec(n).len() >= 1,
        forall|i: int| 0 <= i < spec_dec(n).len() ==> is_digit_char(#[trigger] spec_dec(n)[i]),
    decreases n,
{
    if n < 10 {
        lemma_char_of_digit_val(n);
    } else {
        lemma_dec_digits(n / 10);
        lemma_char_of_digit_val(n % 10);
    }
}

/// The value of a digit text read most significant digit first, folded onto an
/// accumulator.
pub open spec fn seq_val(acc: nat, s: Seq<char>) -> nat
    decreases s.len(),
{
    if s.len() == 0 {
        acc
    } else {
        seq_val(acc * 10 + digit_val(s[0]), s.drop_first())
    }
}

proof fn lemma_seq_val_append(acc: nat, s1: Seq<char>, s2: Seq<char>)
    ensures
        seq_val(acc, s1 + s2) == seq_val(seq_val(acc, s1), s2),
    decreases s1.len(),
{
    if s1.len() == 0 {
        assert(s1 + s2 =~= s2);
    } else {
        assert((s1 + s2).drop_first() =~= s1.drop_first() + s2);
        lemma_seq_val_append(acc * 10 + digit_val(s1[0]), s1.drop_first(), s2);
    }
}

/// Folding the decimal text of `n` yields `n` back.
proof fn lemma_seq_val_dec(n: nat)
    ensures
        seq_val(0, spec_dec(n)) == n,
    decreases n,
{
    if n < 10 {
        lemma_char_of_digit_val(n);
        assert(spec_dec(n).drop_first() =~= Seq::<char>::empty());
        assert(spec_dec(n)[0] == char_of_digit(n));
        assert(seq_val(0, spec_dec(n)) == seq_val(digit_val(char_of_digit(n)), Seq::<char>::empty()));
    } else {
        lemma_seq_val_dec(n / 10);
        let tail = seq![char_of_digit(n % 10)];
        assert(spec_dec(n) =~= spec_dec(n / 10) + tail);
        lemma_seq_val_append(0, spec_dec(n / 10), tail);
        lemma_char_of_digit_val(n % 10);
        assert(tail.drop_first() =~= Seq::<char>::empty());
        assert(tail[0] == char_of_digit(n % 10));
        assert(seq_val(n / 10, tail) == seq_val(
            n / 10 * 10 + digit_val(char_of_digit(n % 10)),
            tail.drop_first(),
        ));
        assert(seq_val(n / 10 * 10 + n % 10, Seq::<char>::empty()) == n / 10 * 10 + n % 10);
        assert(n / 10 * 10 + n % 10 == n);
    }
}

/// Consumes the longest run of digits from the front of `s`, folding their
/// value onto `acc`; returns the value and the remaining text.
pub open spec fn spec_parse_digits(s: Seq<char>, acc: nat) -> (nat, Seq<char>)
    decreases s.len(),
{
    if s.len() > 0 && is_digit_char(s[0]) {
        spec_parse_digits(s.drop_first(), acc * 10 + digit_val(s[0]))
    } else {
        (acc, s)
    }
}

/// Parses a decimal number from the front of `s`: at least one digit is
/// required, and all leading digits are consumed.
pub open spec fn spec_parse_nat(s: Seq<char>) -> Option<(nat, Seq<char>)> {
    if s.len() > 0 && is_digit_char(s[0]) {
        Some(spec_parse_digits(s, 0))
    } else {
        None
    }
}

proof fn lemma_parse_digits_chain(digits: Seq<char>, rest: Seq<char>, acc: nat)
    requires
        forall|i: int| 0 <= i < digits.len() ==> is_digit_char(#[trigger] digits[i]),
    ensures
        spec_parse_digits(digits + rest, acc) == spec_parse_digits(rest, seq_val(acc, digits)),
    decreases digits.len(),
{
    if digits.len() == 0 {
        assert(digits + rest =~= rest);
    } else {
        assert((digits + rest).drop_first() =~= digits.drop_first() + rest);
        lemma_parse_digits_chain(digits.drop_first(), rest, acc * 10 + digit_val(digits[0]));
    }
}

/// Parsing inverts printing: the decimal text of `n` followed by any text that
/// does not begin with a digit parses to `n` with that text left over.
pub proof fn lemma_parse_dec(n: nat, rest: Seq<char>)
    requires
        rest.len() == 0 || !is_digit_char(rest[0]),
    ensures
        spec_parse_nat(spec_dec(n) + rest) == Some((n, rest)),
{
    lemma_dec_digits(n);
    lemma_seq_val_dec(n);
    lemma_parse_digits_chain(spec_dec(n), rest, 0);
    assert((spec_dec(n) + rest)[0] == spec_dec(n)[0]);
}

/// Parsing leaves a suffix: the remaining text is never longer than the
/// input.
pub proof fn lemma_parse_digits_rest_len(s: Seq<char>, acc: nat)
    ensures
        spec_parse_digits(s, acc).1.len() <= s.len(),
    decreases s.len(),
{
    if s.len() > 0 && is_digit_char(s[0]) {
        lemma_parse_digits_rest_len(s.drop_first(), acc * 10 + digit_val(s[0]));
    }
}

/// The parsed value can only grow as more digits are folded in.
proof fn lemma_parse_digits_ge_acc(s: Seq<char>, acc: nat)
    ensures
        spec_parse_digits(s, acc).0 >= acc,
    decreases s.len(),
{
    if s.len() > 0 && is_digit_char(s[0]) {
        lemma_parse_digits_ge_acc(s.drop_first(), acc * 10 + digit_val(s[0]));
    }
}

/// One parsing step: consuming the digit at `pos` folds it onto the
/// accumulator.
proof fn lemma_parse_digits_step(s: Seq<char>, pos: int, acc: nat)
    requires
        0 <= pos < s.len(),
        is_digit_char(s[pos]),
    ensures
        spec_parse_digits(s.skip(pos), acc) == spec_parse_digits(
            s.skip(pos + 1),
            acc * 10 + digit_val(s[pos]),
        ),
{
    assert(s.skip(pos).drop_first() =~= s.skip(pos + 1));
    assert(s.skip(pos)[0] == s[pos]);
}

/// The decimal text of `n`.
pub fn u64_to_dec(n: u64) -> (r: String)
    ensures
        r@ == spec_dec(n as nat),
    decreases n,
{
    if n < 10 {
        digit_str((n % 10) as u8).to_owned()
    } else {
        let mut s = u64_to_dec(n / 10);
        s.append(digit_str((n % 10) as u8));
        assert(s@ =~= spec_dec(n as nat));
        s
    }
}

/// The one-character text of a digit value.
fn digit_str(d: u8) -> (r: &'static str)
    requires
        d < 10,
    ensures
        r@ =~= seq![char_of_digit(d as nat)],
{
    proof {
        reveal_strlit("0");
        reveal_strlit("1");
        reveal_strlit("2");
        reveal_strlit("3");
        reveal_strlit("4");
        reveal_strlit("5");
        reveal_strlit("6");
        reveal_strlit("7");
        reveal_strlit("8");
        reveal_strlit("9");
    }
    if d == 0 {
        "0"
    } else if d == 1 {
        "1"
    } else if d == 2 {
        "2"
    } else if d == 3 {
        "3"
    } else if d == 4 {
        "4"
    } else if d == 5 {
        "5"
    } else if d == 6 {
        "6"
    } else if d == 7 {
        "7"
    } else if d == 8 {
        "8"
    } else {
        "9"
    }
}

/// Parses a decimal number from position `pos` of `s`. Returns the value and
/// the position after its digits, or `None` where no digit starts there or the
/// value does not fit in a `u64`.
pub fn parse_u64(s: &str, pos: usize) -> (r: Option<(u64, usize)>)
    requires
        pos <= s@.len(),
    ensures
        match spec_parse_nat(s@.skip(pos as int)) {
            Some((v, rest)) => {
                if v <= u64::MAX {
                    match r {
                        Some(p) => p.0 == v && pos < p.1 <= s@.len() && s@.skip(p.1 as int)
                            == rest,
                        None => false,
                    }
                } else {
                    r is None
                }
            },
            None => r is None,
        },
{
    let s_len = s.unicode_len();
    if pos >= s_len {
        return None;
    }
    let first = s.get_char(pos);
    if !char_is_digit(first) {
        return None;
    }
    let mut acc: u64 = 0;
    let mut i: usize = pos;
    let ghost whole = s@.skip(pos as int);
    loop
        invariant
            pos <= i <= s_len,
            s_len == s@.len(),
            pos < s@.len(),
            is_digit_char(s@[pos as int]),
            whole == s@.skip(pos as int),
            spec_parse_digits(whole, 0) == spec_parse_digits(s@.skip(i as int), acc as nat),
        ensures
            pos <= i <= s_len,
            spec_parse_digits(whole, 0) == spec_parse_digits(s@.skip(i as int), acc as nat),
            i == s_len || !is_digit_char(s@[i as int]),
        decreases s_len - i,
    {
        if i >= s_len {
            break;
        }
        let c = s.get_char(i);
        if !char_is_digit(c) {
            break;
        }
        let d = digit_of_char(c);
        if acc > (u64::MAX - d as u64) / 10 {
            proof {
                lemma_parse_digits_step(s@, i as int, acc as nat);
                lemma_parse_digits_ge_acc(
                    s@.skip(i as int + 1),
                    acc as nat * 10 + digit_val(s@[i as int]),
                );
                assert(acc as nat * 10 + digit_val(s@[i as int]) > u64::MAX);
            }
            return None;
        }
        proof {
            lemma_parse_digits_step(s@, i as int, acc as nat);
        }
        acc = acc * 10 + d as u64;
        i = i + 1;
    }
    proof {
        if i < s_len {
            assert(s@.skip(i as int)[0] == s@[i as int]);
        }
        assert(spec_parse_digits(s@.skip(i as int), acc as nat) == (acc as nat, s@.skip(i as int)));
        if i == pos {
            assert(is_digit_char(s@[i as int]));
            assert(false);
        }
    }
    Some((acc, i))
}

/// Decides `is_digit_char` on a character.
fn char_is_digit(c: char) -> (r: bool)
    ensures
        r == is_digit_char(c),
{
    let v = c as u32;
    48 <= v && v <= 57
}

/// The numeric value of an ASCII digit character.
fn digit_of_char(c: char) -> (r: u8)
    requires
        is_digit_char(c),
    ensures
        r as nat == digit_val(c),
        r < 10,
{
    (c as u32 - 48) as u8
}

} // verus!
