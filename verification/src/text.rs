//! Plain-text helpers: rendering a small number as its decimal digits,
//! reading one back, and splitting a string on a separator character, all
//! with exact character-level specifications.

use vstd::prelude::*;

verus! {

/// Whether a character is a decimal digit.
pub open spec fn is_digit_char(c: char) -> bool {
    '0' <= c && c <= '9'
}

/// The numeric value of a decimal digit character.
pub open spec fn digit_val(c: char) -> nat {
    (c as int - '0' as int) as nat
}

/// Whether every character of a string is a decimal digit.
pub open spec fn all_digits(s: Seq<char>) -> bool {
    forall|i: int| 0 <= i < s.len() ==> is_digit_char(#[trigger] s[i])
}

/// The numeric value of a string of decimal digits, read most significant
/// digit first.
pub open spec fn dec_val(s: Seq<char>) -> nat
    decreases s.len(),
{
    if s.len() == 0 {
        0
    } else {
        dec_val(s.drop_last()) * 10 + digit_val(s.last())
    }
}

proof fn lemma_dec_val_prefix(s: Seq<char>, k: int)
    requires
        0 <= k <= s.len(),
    ensures
        dec_val(s.take(k)) <= dec_val(s),
    decreases s.len(),
{
    if k == s.len() {
        assert(s.take(k) =~= s);
    } else {
        assert(s.drop_last().take(k) =~= s.take(k));
        lemma_dec_val_prefix(s.drop_last(), k);
    }
}

/// The character for a single decimal digit.
pub open spec fn digit_char(d: nat) -> char {
    if d == 0 {
        '0'
    } else if d == 1 {
        '1'
    } else if d == 2 {
        '2'
    } else if d == 3 {
        '3'
    } else if d == 4 {
        '4'
    } else if d == 5 {
        '5'
    } else if d == 6 {
        '6'
    } else if d == 7 {
        '7'
    } else if d == 8 {
        '8'
    } else {
        '9'
    }
}

/// The decimal rendering of a number, most significant digit first,
/// with no leading zeros (zero itself renders as "0").
pub open spec fn dec_seq(n: nat) -> Seq<char>
    decreases n,
{
    if n < 10 {
        seq![digit_char(n)]
    } else {
        dec_seq(n / 10).push(digit_char(n % 10))
    }
}

fn digit_str(d: u8) -> (r: &'static str)
    requires
        d < 10,
    ensures
        r@ =~= seq![digit_char(d as nat)],
{
    proof {
        reveal_strlit("0");
        reveal_strlit("1");
        reveal_strlit("2");
        reveal_strlit("3");
        reveal_strlit("4");
        reveal_strlit("5");
        reveal_strlit("6");
        reveal_strlit("7");
        reveal_strlit("8");
        reveal_strlit("9");
    }
    match d {
        0 => "0",
        1 => "1",
        2 => "2",
        3 => "3",
        4 => "4",
        5 => "5",
        6 => "6",
        7 => "7",
        8 => "8",
        _ => "9",
    }
}

/// Renders a number as its decimal digits, e.g. 30 as "30".
pub fn u8_to_string(n: u8) -> (r: String)
    ensures
        r@ == dec_seq(n as nat),
{
    let mut s = String::new();
    if n >= 100 {
        s.append(digit_str((n / 10) / 10));
    }
    if n >= 10 {
        s.append(digit_str((n / 10) % 10));
    }
    s.append(digit_str(n % 10));
    proof {
        let m = n as nat;
        if m >= 10 {
            assert(dec_seq(m) == dec_seq(m / 10).push(digit_char(m % 10)));
            if m >= 100 {
                assert(dec_seq(m / 10) == dec_seq(m / 10 / 10).push(digit_char(m / 10 % 10)));
                assert(dec_seq(m / 10 / 10) == seq![digit_char(m / 10 / 10)]);
            } else {
                assert(dec_seq(m / 10) == seq![digit_char(m / 10)]);
            }
        }
        assert(s@ =~= dec_seq(m));
    }
    s
}

/// Rendering a number gives a non-empty string of decimal digits that
/// reads back as the same number.
pub proof fn lemma_decimal_round_trip(n: nat)
    ensures
        dec_seq(n).len() >= 1,
        all_digits(dec_seq(n)),
        dec_val(dec_seq(n)) == n,
    decreases n,
{
    if n < 10 {
        let s = dec_seq(n);
        assert(s == seq![digit_char(n)]);
        assert(s.drop_last() =~= Seq::<char>::empty());
        assert(dec_val(Seq::<char>::empty()) == 0);
        assert(s.last() == digit_char(n));
        assert(dec_val(s) == dec_val(s.drop_last()) * 10 + digit_val(s.last()));
    } else {
        lemma_decimal_round_trip(n / 10);
        let s = dec_seq(n);
        assert(s == dec_seq(n / 10).push(digit_char(n % 10)));
        assert(s.drop_last() =~= dec_seq(n / 10));
        assert(s.last() == digit_char(n % 10));
        assert forall|i: int| 0 <= i < s.len() implies is_digit_char(#[trigger] s[i]) by {
            if i < s.len() - 1 {
                assert(s[i] == dec_seq(n / 10)[i]);
            }
        }
    }
}

/// Reads a decimal number from a string. Returns the value exactly when the
/// string is a non-empty run of decimal digits whose value fits in a `u8`.
pub fn parse_u8(s: &str) -> (r: Option<u8>)
    ensures
        r is Some <==> s@.len() > 0 && all_digits(s@) && dec_val(s@) <= u8::MAX,
        r is Some ==> r->0 as nat == dec_val(s@),
{
    let n = s.unicode_len();
    if n == 0 {
        return None;
    }
    let mut val: u32 = 0;
    let mut i: usize = 0;
    while i < n
        invariant
            0 <= i <= n,
            n == s@.len(),
            all_digits(s@.take(i as int)),
            val as nat == dec_val(s@.take(i as int)),
            val <= u8::MAX,
        decreases n - i,
    {
        let c = s.get_char(i);
        let code = c as u32;
        if code < 48 || code > 57 {
            assert(!is_digit_char(s@[i as int]));
            return None;
        }
        let d = code - 48;
        val = val * 10 + d;
        proof {
            assert(s@.take(i + 1).drop_last() =~= s@.take(i as int));
            assert(s@.take(i + 1).last() == s@[i as int]);
        }
        if val > u8::MAX as u32 {
            proof {
                lemma_dec_val_prefix(s@, i + 1);
            }
            return None;
        }
        i += 1;
    }
    proof {
        assert(s@.take(n as int) =~= s@);
    }
    Some(val as u8)
}

/// Splits a string at every occurrence of a separator character: the result
/// is the list of (possibly empty) pieces between separators, in order.
pub open spec fn split_on(s: Seq<char>, sep: char) -> Seq<Seq<char>>
    decreases s.len(),
{
    if s.len() == 0 {
        seq![Seq::<char>::empty()]
    } else if s[0] == sep {
        seq![Seq::<char>::empty()].add(split_on(s.drop_first(), sep))
    } else {
        let rest = split_on(s.drop_first(), sep);
        seq![seq![s[0]].add(rest[0])].add(rest.drop_first())
    }
}

proof fn lemma_split_on_len(s: Seq<char>, sep: char)
    ensures
        split_on(s, sep).len() >= 1,
    decreases s.len(),
{
    if s.len() != 0 {
        lemma_split_on_len(s.drop_first(), sep);
    }
}

proof fn lemma_split_on_no_sep(s: Seq<char>, sep: char)
    requires
        forall|j: int| 0 <= j < s.len() ==> #[trigger] s[j] != sep,
    ensures
        split_on(s, sep) == seq![s],
    decreases s.len(),
{
    if s.len() == 0 {
        assert(split_on(s, sep) =~~= seq![s]);
    } else {
        lemma_split_on_no_sep(s.drop_first(), sep);
        assert(seq![s[0]].add(s.drop_first()) =~= s);
        assert(split_on(s, sep) =~~= seq![s]);
    }
}

proof fn lemma_split_on_first_sep(s: Seq<char>, sep: char, i: int)
    requires
        0 <= i < s.len(),
        s[i] == sep,
        forall|j: int| 0 <= j < i ==> #[trigger] s[j] != sep,
    ensures
        split_on(s, sep) == seq![s.take(i)].add(split_on(s.skip(i + 1), sep)),
    decreases i,
{
    if i == 0 {
        assert(s.take(0) =~= Seq::<char>::empty());
        assert(s.skip(1) =~= s.drop_first());
        assert(split_on(s, sep) =~~= seq![s.take(0)].add(split_on(s.skip(1), sep)));
    } else {
        let t = s.drop_first();
        lemma_split_on_first_sep(t, sep, i - 1);
        lemma_split_on_len(t.skip(i), sep);
        let rest = split_on(t, sep);
        assert(rest[0] == t.take(i - 1));
        assert(rest.drop_first() == split_on(t.skip(i), sep));
        assert(seq![s[0]].add(t.take(i - 1)) =~= s.take(i));
        assert(t.skip(i) =~= s.skip(i + 1));
        assert(split_on(s, sep) =~~= seq![s.take(i)].add(split_on(s.skip(i + 1), sep)));
    }
}

/// Splits a string at every occurrence of a separator character.
pub fn split_str(s: &str, sep: char) -> (r: Vec<String>)
    ensures
        r.deep_view() == split_on(s@, sep),
{
    let n = s.unicode_len();
    let mut r: Vec<String> = Vec::new();
    proof {
        assert(s@.skip(0) =~= s@);
        assert(r.deep_view() =~~= Seq::<Seq<char>>::empty());
        assert(Seq::<Seq<char>>::empty().add(split_on(s@, sep)) =~~= split_on(s@, sep));
    }
    let mut start: usize = 0;
    let mut i: usize = 0;
    while i < n
        invariant
            0 <= start <= i <= n,
            n == s@.len(),
            forall|j: int| start <= j < i ==> #[trigger] s@[j] != sep,
            split_on(s@, sep) == r.deep_view().add(split_on(s@.skip(start as int), sep)),
        decreases n - i,
    {
        if s.get_char(i) == sep {
            let piece = s.substring_char(start, i).to_owned();
            let ghost dv = r.deep_view();
            proof {
                let t = s@.skip(start as int);
                assert forall|j: int| 0 <= j < i - start implies #[trigger] t[j] != sep by {
                    assert(t[j] == s@[start + j]);
                }
                assert(t[i - start] == s@[i as int]);
                lemma_split_on_first_sep(t, sep, i - start);
                assert(t.take(i - start) =~= s@.subrange(start as int, i as int));
                assert(t.skip(i - start + 1) =~= s@.skip(i + 1));
            }
            r.push(piece);
            proof {
                assert(r.deep_view() =~~= dv.push(piece@));
                assert(dv.push(piece@).add(split_on(s@.skip(i + 1), sep)) =~~= dv.add(
                    split_on(s@.skip(start as int), sep),
                ));
            }
            start = i + 1;
        }
        i += 1;
    }
    let last = s.substring_char(start, n).to_owned();
    let ghost dv = r.deep_view();
    proof {
        let t = s@.skip(start as int);
        assert forall|j: int| 0 <= j < t.len() implies #[trigger] t[j] != sep by {
            assert(t[j] == s@[start + j]);
        }
        lemma_split_on_no_sep(t, sep);
    }
    r.push(last);
    proof {
        assert(r.deep_view() =~~= dv.push(last@));
        assert(dv.push(last@) =~~= dv.add(split_on(s@.skip(start as int), sep)));
    }
    r
}

} // verus!
