use vstd::prelude::*;
use vstd::string::StringSliceAdditionalSpecFns;
use vstd::utf8::{decode_utf8, encode_utf8, valid_utf8};

verus! {

broadcast use vstd::string::group_string_axioms;

// ---------------------------------------------------------------- decimals

/// The character of decimal digit `d`.
pub open spec fn dec_digit(d: int) -> char {
    seq!['0', '1', '2', '3', '4', '5', '6', '7', '8', '9'][d]
}

/// The decimal notation of `n`, without sign or leading zeros.
pub open spec fn dec_chars(n: nat) -> Seq<char>
    decreases n,
{
    if n < 10 {
        seq![dec_digit(n as int)]
    } else {
        dec_chars(n / 10).push(dec_digit((n % 10) as int))
    }
}

fn digit_str(d: u32) -> (s: &'static str)
    requires
        d < 10,
    ensures
        s@ == seq![dec_digit(d as int)],
{
    proof {
        reveal_strlit("0");
        reveal_strlit("1");
        reveal_strlit("2");
        reveal_strlit("3");
        reveal_strlit("4");
        reveal_strlit("5");
        reveal_strlit("6");
        reveal_strlit("7");
        reveal_strlit("8");
        reveal_strlit("9");
    }
    match d {
        0 => "0",
        1 => "1",
        2 => "2",
        3 => "3",
        4 => "4",
        5 => "5",
        6 => "6",
        7 => "7",
        8 => "8",
        _ => "9",
    }
}

/// The decimal notation of `n`, as `n.to_string()` writes it.
pub fn u32_to_string(n: u32) -> (s: String)
    ensures
        s@ == dec_chars(n as nat),
    decreases n,
{
    if n < 10 {
        String::from_str(digit_str(n))
    } else {
        let mut s = u32_to_string(n / 10);
        s.append(digit_str(n % 10));
        s
    }
}

// ---------------------------------------------------------------- parsing

pub open spec fn is_digit(c: char) -> bool {
    48 <= (c as u32) <= 57
}

/// The value of a sequence of decimal digits.
pub open spec fn digits_value(t: Seq<char>) -> nat
    decreases t.len(),
{
    if t.len() == 0 {
        0
    } else {
        digits_value(t.drop_last()) * 10 + ((t.last() as u32) - 48) as nat
    }
}

pub open spec fn all_digits(t: Seq<char>) -> bool {
    forall|k: int| 0 <= k < t.len() ==> #[trigger] is_digit(t[k])
}

/// What `str::parse::<u32>` gives for `t`: an optional `+`, then one or more
/// decimal digits whose value fits in a `u32`.
pub open spec fn parse_u32_spec(t: Seq<char>) -> Option<u32> {
    let d = if t.len() > 0 && t[0] == '+' {
        t.drop_first()
    } else {
        t
    };
    if d.len() > 0 && all_digits(d) && digits_value(d) <= u32::MAX {
        Some(digits_value(d) as u32)
    } else {
        None
    }
}

proof fn lemma_digits_value_prefix(t: Seq<char>, k: int)
    requires
        all_digits(t),
        0 <= k <= t.len(),
    ensures
        digits_value(t.take(k)) <= digits_value(t),
    decreases t.len(),
{
    if k < t.len() {
        assert(t.drop_last().take(k) =~= t.take(k));
        lemma_digits_value_prefix(t.drop_last(), k);
    } else {
        assert(t.take(k) =~= t);
    }
}

/// Reads a `u32` as `str::parse::<u32>` does.
pub fn parse_u32(t: &str) -> (r: Option<u32>)
    ensures
        r == parse_u32_spec(t@),
{
    let n = t.unicode_len();
    let mut i: usize = 0;
    if n > 0 && t.get_char(0) == '+' {
        i = 1;
    }
    let ghost d = if t@.len() > 0 && t@[0] == '+' {
        t@.drop_first()
    } else {
        t@
    };
    let start = i;
    if start == n {
        return None;
    }
    let mut acc: u64 = 0;
    while i < n
        invariant
            start <= i <= n,
            n == t@.len(),
            start == t@.len() - d.len(),
            d == t@.subrange(start as int, n as int),
            d == (if t@.len() > 0 && t@[0] == '+' {
                t@.drop_first()
            } else {
                t@
            }),
            d.len() > 0,
            acc == digits_value(d.take(i - start)),
            acc <= u32::MAX,
            all_digits(d.take(i - start)),
        decreases n - i,
    {
        let c = t.get_char(i);
        let ghost k = i - start;
        assert(d[k] == c);
        if !((c as u32) >= 48 && (c as u32) <= 57) {
            assert(!is_digit(d[k]));
            assert(!all_digits(d));
            return None;
        }
        assert(d.take(k + 1).drop_last() =~= d.take(k));
        let v = acc * 10 + ((c as u32) - 48) as u64;
        if v > 4294967295 {
            proof {
                if all_digits(d) {
                    lemma_digits_value_prefix(d, k + 1);
                }
            }
            return None;
        }
        acc = v;
        i = i + 1;
        assert(all_digits(d.take(i - start))) by {
            assert forall|j: int| 0 <= j < d.take(k + 1).len() implies #[trigger] is_digit(
                d.take(k + 1)[j],
            ) by {
                if j < k {
                    assert(d.take(k + 1)[j] == d.take(k)[j]);
                }
            }
        }
    }
    assert(d.take(n - start) =~= d);
    Some(acc as u32)
}

// ---------------------------------------------------------------- words

/// Unicode's `White_Space` property, which `char::is_whitespace` tests.
pub open spec fn is_whitespace(c: char) -> bool {
    let u = c as u32;
    ||| 9 <= u <= 13
    ||| u == 32
    ||| u == 0x85
    ||| u == 0xA0
    ||| u == 0x1680
    ||| 0x2000 <= u <= 0x200A
    ||| u == 0x2028
    ||| u == 0x2029
    ||| u == 0x202F
    ||| u == 0x205F
    ||| u == 0x3000
}

pub fn char_is_whitespace(c: char) -> (b: bool)
    ensures
        b == is_whitespace(c),
{
    let u = c as u32;
    (9 <= u && u <= 13) || u == 32 || u == 0x85 || u == 0xA0 || u == 0x1680 || (0x2000 <= u && u
        <= 0x200A) || u == 0x2028 || u == 0x2029 || u == 0x202F || u == 0x205F || u == 0x3000
}

/// The words of `s` as `str::split_whitespace` yields them: the maximal runs
/// of characters that are not whitespace, in order.
pub open spec fn split_whitespace(s: Seq<char>) -> Seq<Seq<char>>
    decreases s.len(),
{
    if s.len() == 0 {
        Seq::empty()
    } else {
        let init = s.drop_last();
        let c = s.last();
        let prev = split_whitespace(init);
        if is_whitespace(c) {
            prev
        } else if init.len() > 0 && !is_whitespace(init.last()) {
            prev.update(prev.len() - 1, prev.last().push(c))
        } else {
            prev.push(seq![c])
        }
    }
}

pub open spec fn strings_view(v: Seq<String>) -> Seq<Seq<char>> {
    v.map_values(|t: String| t@)
}

/// Splits `s` into its words, as `s.split_whitespace()` does.
pub fn split_whitespace_words(s: &str) -> (words: Vec<String>)
    ensures
        strings_view(words@) == split_whitespace(s@),
{
    let n = s.unicode_len();
    let mut words: Vec<String> = Vec::new();
    let mut start: Option<usize> = None;
    let mut i: usize = 0;
    while i < n
        invariant
            i <= n,
            n == s@.len(),
            match start {
                None => {
                    &&& strings_view(words@) == split_whitespace(s@.take(i as int))
                    &&& (i > 0 ==> is_whitespace(s@[i - 1]))
                },
                Some(st) => {
                    &&& st < i
                    &&& strings_view(words@).push(s@.subrange(st as int, i as int))
                        == split_whitespace(s@.take(i as int))
                    &&& !is_whitespace(s@[i - 1])
                },
            },
        decreases n - i,
    {
        let c = s.get_char(i);
        let ghost pre = s@.take(i as int);
        let ghost next = s@.take(i + 1);
        assert(next.drop_last() =~= pre);
        assert(next.last() == c);
        if char_is_whitespace(c) {
            match start {
                None => {},
                Some(st) => {
                    let w = String::from_str(s.substring_char(st, i));
                    let ghost before = words@;
                    words.push(w);
                    assert(strings_view(words@) =~= strings_view(before).push(w@));
                    start = None;
                },
            }
        } else {
            match start {
                None => {
                    assert(s@.subrange(i as int, i + 1) =~= seq![c]);
                    start = Some(i);
                },
                Some(st) => {
                    assert(pre.last() == s@[i - 1]);
                    assert(s@.subrange(st as int, i + 1) =~= s@.subrange(st as int, i as int).push(c));
                },
            }
        }
        i = i + 1;
    }
    assert(s@.take(n as int) =~= s@);
    match start {
        None => {},
        Some(st) => {
            let w = String::from_str(s.substring_char(st, n));
            let ghost before = words@;
            words.push(w);
            assert(strings_view(words@) =~= strings_view(before).push(w@));
        },
    }
    words
}

/// The words joined by single spaces.
pub open spec fn join_words(w: Seq<Seq<char>>) -> Seq<char>
    decreases w.len(),
{
    if w.len() == 0 {
        Seq::empty()
    } else if w.len() == 1 {
        w[0]
    } else {
        join_words(w.drop_last()) + seq![' '] + w.last()
    }
}

/// A word: at least one character, none of them whitespace.
pub open spec fn is_word(t: Seq<char>) -> bool {
    &&& t.len() > 0
    &&& forall|k: int| 0 <= k < t.len() ==> !#[trigger] is_whitespace(t[k])
}

proof fn lemma_split_after_space(s: Seq<char>)
    ensures
        split_whitespace(s + seq![' ']) == split_whitespace(s),
{
    let x = s + seq![' '];
    assert(x.drop_last() =~= s);
    assert(is_whitespace(x.last()));
}

proof fn lemma_split_append_word(s: Seq<char>, t: Seq<char>)
    requires
        is_word(t),
        s.len() == 0 || is_whitespace(s.last()),
    ensures
        split_whitespace(s + t) == split_whitespace(s).push(t),
    decreases t.len(),
{
    let x = s + t;
    let c = t.last();
    assert(!is_whitespace(t[t.len() - 1]));
    if t.len() == 1 {
        assert(x.drop_last() =~= s);
        assert(t =~= seq![c]);
    } else {
        let t0 = t.drop_last();
        assert(is_word(t0)) by {
            assert forall|k: int| 0 <= k < t0.len() implies !#[trigger] is_whitespace(t0[k]) by {
                assert(t0[k] == t[k]);
            }
        }
        lemma_split_append_word(s, t0);
        assert(x.drop_last() =~= s + t0);
        assert((s + t0).last() == t[t.len() - 2]);
        assert(!is_whitespace(t[t.len() - 2]));
        let prev = split_whitespace(s + t0);
        assert(prev.update(prev.len() - 1, prev.last().push(c)) =~= split_whitespace(s).push(t)) by {
            assert(t0.push(c) =~= t);
        }
    }
}

/// Splitting words joined by single spaces gives the words back.
pub proof fn lemma_split_join(w: Seq<Seq<char>>)
    requires
        forall|k: int| 0 <= k < w.len() ==> is_word(#[trigger] w[k]),
    ensures
        split_whitespace(join_words(w)) == w,
    decreases w.len(),
{
    if w.len() == 0 {
    } else if w.len() == 1 {
        lemma_split_append_word(Seq::empty(), w[0]);
        assert(Seq::<char>::empty() + w[0] =~= w[0]);
        assert(split_whitespace(Seq::<char>::empty()).push(w[0]) =~= w);
    } else {
        let init = w.drop_last();
        assert forall|k: int| 0 <= k < init.len() implies is_word(#[trigger] init[k]) by {
            assert(init[k] == w[k]);
        }
        lemma_split_join(init);
        let j = join_words(init) + seq![' '];
        lemma_split_after_space(join_words(init));
        assert(is_word(w[w.len() - 1]));
        lemma_split_append_word(j, w.last());
        assert(init.push(w.last()) =~= w);
    }
}

proof fn lemma_dec_digit(d: int)
    requires
        0 <= d < 10,
    ensures
        dec_digit(d) as u32 == 48 + d,
        is_digit(dec_digit(d)),
{
    let t = seq!['0', '1', '2', '3', '4', '5', '6', '7', '8', '9'];
    assert(t[0] == '0' && t[1] == '1' && t[2] == '2' && t[3] == '3' && t[4] == '4');
    assert(t[5] == '5' && t[6] == '6' && t[7] == '7' && t[8] == '8' && t[9] == '9');
}

/// A `u32` has at most ten decimal digits, all of them ASCII.
pub proof fn lemma_dec_len(n: nat)
    requires
        n <= u32::MAX,
    ensures
        dec_chars(n).len() <= 10,
        vstd::utf8::is_ascii_chars(dec_chars(n)),
{
    reveal_with_fuel(pow10, 11);
    assert(pow10(10) == 10000000000);
    lemma_dec_digits_len(n, 10);
}

pub open spec fn pow10(k: nat) -> nat
    decreases k,
{
    if k == 0 {
        1
    } else {
        10 * pow10((k - 1) as nat)
    }
}

proof fn lemma_dec_digits_len(n: nat, k: nat)
    requires
        n < pow10(k),
        k >= 1,
    ensures
        dec_chars(n).len() <= k,
        vstd::utf8::is_ascii_chars(dec_chars(n)),
    decreases n,
{
    let d = dec_chars(n);
    lemma_dec_chars(n);
    if n >= 10 {
        assert(pow10(k) == 10 * pow10((k - 1) as nat));
        if k == 1 {
            assert(pow10(0) == 1);
        }
        lemma_dec_digits_len(n / 10, (k - 1) as nat);
        assert(d.drop_last() =~= dec_chars(n / 10));
    }
    assert forall|i| 0 <= i < d.len() implies '\0' <= #[trigger] d[i] <= '\u{7f}' by {
        assert(is_digit(d[i]));
    }
}

/// The decimal notation of `n` is a word of digits that reads back as `n`.
pub proof fn lemma_dec_chars(n: nat)
    ensures
        dec_chars(n).len() > 0,
        all_digits(dec_chars(n)),
        digits_value(dec_chars(n)) == n,
        is_word(dec_chars(n)),
        dec_chars(n)[0] != '+',
        n <= u32::MAX ==> parse_u32_spec(dec_chars(n)) == Some(n as u32),
    decreases n,
{
    let d = dec_chars(n);
    lemma_dec_digit((n % 10) as int);
    if n < 10 {
        lemma_dec_digit(n as int);
        assert(d.drop_last() =~= Seq::<char>::empty());
        assert(digits_value(Seq::<char>::empty()) == 0);
        assert(d.last() == dec_digit(n as int));
        assert(digits_value(d) == n);
    } else {
        lemma_dec_chars(n / 10);
        let p = dec_chars(n / 10);
        assert(d.drop_last() =~= p);
        assert forall|k: int| 0 <= k < d.len() implies #[trigger] is_digit(d[k]) by {
            if k < p.len() {
                assert(d[k] == p[k]);
            }
        }
        assert(d[0] == p[0]);
        assert(n == (n / 10) * 10 + n % 10);
        assert(digits_value(d) == n);
    }
    assert(is_word(d)) by {
        assert forall|k: int| 0 <= k < d.len() implies !#[trigger] is_whitespace(d[k]) by {
            assert(is_digit(d[k]));
        }
    }
}

// ---------------------------------------------------------------- UTF-8

/// `std::str::from_utf8`: the bytes viewed as a string slice when they are
/// valid UTF-8, and nothing when they are not.
#[verifier::external_body]
fn str_from_utf8<'a>(v: &'a [u8]) -> (r: Option<&'a str>)
    ensures
        match r {
            Some(s) => s.spec_bytes() == v@,
            None => !valid_utf8(v@),
        },
{
    std::str::from_utf8(v).ok()
}

/// Reads `v` as UTF-8 text.
pub fn decode_text<'a>(v: &'a [u8]) -> (r: Option<&'a str>)
    ensures
        match r {
            Some(s) => valid_utf8(v@) && s@ == decode_utf8(v@),
            None => !valid_utf8(v@),
        },
{
    let r = str_from_utf8(v);
    match r {
        Some(s) => {
            proof {
                vstd::utf8::encode_utf8_valid_utf8(s@);
                vstd::utf8::encode_utf8_decode_utf8(s@);
            }
            Some(s)
        },
        None => None,
    }
}

/// The UTF-8 bytes of `s`.
pub fn text_bytes(s: &String) -> (b: Vec<u8>)
    ensures
        b@ == encode_utf8(s@),
{
    s.as_str().as_bytes_vec()
}

} // verus!
