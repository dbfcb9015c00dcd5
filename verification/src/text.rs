use vstd::prelude::*;
use vstd::string::StrSliceExecFns;

verus! {

/// True when no character of `s` is the pipe delimiter.
pub open spec fn pipe_free(s: Seq<char>) -> bool {
    forall|j: int| 0 <= j < s.len() ==> s[j] != '|'
}

/// Index of the first pipe in `s`, if any.
pub open spec fn find_pipe(s: Seq<char>) -> Option<int>
    decreases s.len(),
{
    if s.len() == 0 {
        None
    } else if s[0] == '|' {
        Some(0int)
    } else {
        match find_pipe(s.skip(1)) {
            None => None,
            Some(i) => Some(i + 1),
        }
    }
}

/// Splits `s` at its first pipe: the text before it and the text after it.
pub open spec fn split_pipe(s: Seq<char>) -> Option<(Seq<char>, Seq<char>)> {
    match find_pipe(s) {
        None => None,
        Some(i) => Some((s.take(i), s.skip(i + 1))),
    }
}

pub proof fn lemma_find_pipe_some(s: Seq<char>, i: int)
    requires
        0 <= i < s.len(),
        s[i] == '|',
        forall|j: int| 0 <= j < i ==> s[j] != '|',
    ensures
        find_pipe(s) == Some(i),
    decreases s.len(),
{
    if i > 0 {
        lemma_find_pipe_some(s.skip(1), i - 1);
    }
}

pub proof fn lemma_find_pipe_none(s: Seq<char>)
    requires
        pipe_free(s),
    ensures
        find_pipe(s) is None,
    decreases s.len(),
{
    if s.len() > 0 {
        lemma_find_pipe_none(s.skip(1));
    }
}

pub proof fn lemma_find_pipe_first(s: Seq<char>)
    ensures
        match find_pipe(s) {
            Some(i) => 0 <= i < s.len() && s[i] == '|' && (forall|j: int|
                0 <= j < i ==> s[j] != '|'),
            None => pipe_free(s),
        },
    decreases s.len(),
{
    if s.len() > 0 && s[0] != '|' {
        lemma_find_pipe_first(s.skip(1));
        match find_pipe(s.skip(1)) {
            Some(i) => {
                assert forall|j: int| 0 <= j < i + 1 implies s[j] != '|' by {
                    if j > 0 {
                        assert(s.skip(1)[j - 1] == s[j]);
                    }
                }
            },
            None => {
                assert forall|j: int| 0 <= j < s.len() implies s[j] != '|' by {
                    if j > 0 {
                        assert(s.skip(1)[j - 1] == s[j]);
                    }
                }
            },
        }
    }
}

/// Splitting `head + '|' + tail` at the first pipe gives back `head` and
/// `tail` whenever `head` itself holds no pipe.
pub proof fn lemma_split_pipe_concat(head: Seq<char>, tail: Seq<char>)
    requires
        pipe_free(head),
    ensures
        split_pipe(head + seq!['|'] + tail) == Some((head, tail)),
{
    let s = head + seq!['|'] + tail;
    let n = head.len() as int;
    assert(s[n] == '|');
    assert(forall|j: int| 0 <= j < n ==> s[j] == head[j] && s[j] != '|');
    lemma_find_pipe_some(s, n);
    assert(s.take(n) =~= head);
    assert(s.skip(n + 1) =~= tail);
}

/// Compares two string slices by their character sequences.
pub fn char_seq_eq(a: &str, b: &str) -> (r: bool)
    ensures
        r == (a@ == b@),
{
    let alen = a.unicode_len();
    let blen = b.unicode_len();
    if alen != blen {
        proof {
            assert(a@.len() != b@.len());
        }
        return false;
    }
    let mut i: usize = 0;
    while i < alen
        invariant
            alen == a@.len(),
            alen == b@.len(),
            0 <= i <= alen,
            forall|j: int| 0 <= j < i ==> a@[j] == b@[j],
        decreases alen - i,
    {
        if a.get_char(i) != b.get_char(i) {
            proof {
                assert(a@[i as int] != b@[i as int]);
            }
            return false;
        }
        i = i + 1;
    }
    proof {
        assert(a@ =~= b@);
    }
    true
}

/// Index of the first pipe character in `s`, by a left-to-right scan.
pub fn find_pipe_index(s: &str) -> (r: Option<usize>)
    ensures
        match r {
            Some(i) => find_pipe(s@) == Some(i as int),
            None => find_pipe(s@) is None,
        },
{
    let len = s.unicode_len();
    let mut i: usize = 0;
    while i < len
        invariant
            len == s@.len(),
            0 <= i <= len,
            forall|j: int| 0 <= j < i ==> s@[j] != '|',
        decreases len - i,
    {
        if s.get_char(i) == '|' {
            proof {
                lemma_find_pipe_some(s@, i as int);
            }
            return Some(i);
        }
        i = i + 1;
    }
    proof {
        lemma_find_pipe_none(s@);
    }
    None
}

/// Splits `s` at its first pipe, handing back the two sides.
pub fn split_once_pipe(s: &str) -> (r: Option<(&str, &str)>)
    ensures
        match r {
            Some((x, y)) => split_pipe(s@) == Some((x@, y@)),
            None => split_pipe(s@) is None,
        },
{
    match find_pipe_index(s) {
        None => None,
        Some(i) => {
            proof {
                lemma_find_pipe_first(s@);
            }
            let len = s.unicode_len();
            let head = s.substring_char(0, i);
            let tail = s.substring_char(i + 1, len);
            proof {
                assert(head@ =~= s@.take(i as int));
                assert(tail@ =~= s@.skip(i as int + 1));
            }
            Some((head, tail))
        },
    }
}

/// Whether some element of `v` reads as the same characters as `s`.
pub fn vec_contains_str(v: &Vec<String>, s: &str) -> (r: bool)
    ensures
        r == v.deep_view().contains(s@),
{
    let mut i: usize = 0;
    while i < v.len()
        invariant
            0 <= i <= v@.len(),
            forall|j: int| 0 <= j < i ==> v.deep_view()[j] != s@,
        decreases v@.len() - i,
    {
        if char_seq_eq(v[i].as_str(), s) {
            proof {
                assert(v.deep_view()[i as int] == s@);
            }
            return true;
        }
        i = i + 1;
    }
    proof {
        if v.deep_view().contains(s@) {
            let j = choose|j: int| 0 <= j < v.deep_view().len() && v.deep_view()[j] == s@;
            assert(v.deep_view()[j] != s@);
        }
    }
    false
}

/// Decimal digit value of a character, ten for any non-digit.
pub open spec fn digit_val(c: char) -> nat {
    if c == '0' {
        0
    } else if c == '1' {
        1
    } else if c == '2' {
        2
    } else if c == '3' {
        3
    } else if c == '4' {
        4
    } else if c == '5' {
        5
    } else if c == '6' {
        6
    } else if c == '7' {
        7
    } else if c == '8' {
        8
    } else if c == '9' {
        9
    } else {
        10
    }
}

pub open spec fn is_digit(c: char) -> bool {
    digit_val(c) < 10
}

pub open spec fn is_digit_seq(s: Seq<char>) -> bool {
    forall|j: int| 0 <= j < s.len() ==> is_digit(#[trigger] s[j])
}

/// Value of a decimal digit string, most significant digit first.
pub open spec fn digits_val(s: Seq<char>) -> nat
    decreases s.len(),
{
    if s.len() == 0 {
        0
    } else {
        digits_val(s.drop_last()) * 10 + digit_val(s.last())
    }
}

/// Canonical decimal rendering of `n`, without leading zeroes.
pub open spec fn digits_of(n: nat) -> Seq<char>
    decreases n,
{
    if n < 10 {
        seq![digit_char(n)]
    } else {
        digits_of(n / 10).push(digit_char(n % 10))
    }
}

/// The digit character for a value below ten; '0' otherwise.
pub open spec fn digit_char(d: nat) -> char {
    if d == 0 {
        '0'
    } else if d == 1 {
        '1'
    } else if d == 2 {
        '2'
    } else if d == 3 {
        '3'
    } else if d == 4 {
        '4'
    } else if d == 5 {
        '5'
    } else if d == 6 {
        '6'
    } else if d == 7 {
        '7'
    } else if d == 8 {
        '8'
    } else {
        '9'
    }
}

pub proof fn lemma_digit_char_val(d: nat)
    requires
        d < 10,
    ensures
        digit_val(digit_char(d)) == d,
        is_digit(digit_char(d)),
        digit_char(d) != '|',
{
}

/// The canonical rendering is a digit string that reads back to `n`.
pub proof fn lemma_digits_of_val(n: nat)
    ensures
        digits_val(digits_of(n)) == n,
        is_digit_seq(digits_of(n)),
        digits_of(n).len() >= 1,
        pipe_free(digits_of(n)),
    decreases n,
{
    if n < 10 {
        lemma_digit_char_val(n);
        assert(digits_of(n) =~= seq![digit_char(n)]);
        assert(digits_of(n).drop_last() =~= Seq::<char>::empty());
        assert(digits_val(Seq::<char>::empty()) == 0);
        assert(digits_val(digits_of(n)) == digits_val(digits_of(n).drop_last()) * 10 + digit_val(
            digits_of(n).last(),
        ));
    } else {
        lemma_digits_of_val(n / 10);
        lemma_digit_char_val(n % 10);
        let s = digits_of(n);
        assert(s =~= digits_of(n / 10).push(digit_char(n % 10)));
        assert(s.drop_last() =~= digits_of(n / 10));
        assert(s.last() == digit_char(n % 10));
        assert(digits_val(s) == (n / 10) * 10 + (n % 10));
        assert((n / 10) * 10 + (n % 10) == n) by (nonlinear_arith);
    }
}

/// A digit-string prefix never reads to more than the whole string.
pub proof fn lemma_digits_prefix_le(s: Seq<char>, i: int)
    requires
        is_digit_seq(s),
        0 <= i <= s.len(),
    ensures
        digits_val(s.take(i)) <= digits_val(s),
    decreases s.len(),
{
    if i < s.len() {
        assert(s.drop_last().take(i) =~= s.take(i));
        assert(is_digit_seq(s.drop_last()));
        lemma_digits_prefix_le(s.drop_last(), i);
        assert(digits_val(s) == digits_val(s.drop_last()) * 10 + digit_val(s.last()));
        assert(digits_val(s.drop_last()) * 10 >= digits_val(s.drop_last())) by (nonlinear_arith)
            requires digits_val(s.drop_last()) >= 0;
    } else {
        assert(s.take(i) =~= s);
    }
}

/// Maps a character to its decimal digit value when it is one.
pub fn digit_of_char(c: char) -> (r: Option<u8>)
    ensures
        match r {
            Some(d) => is_digit(c) && d == digit_val(c),
            None => !is_digit(c),
        },
{
    match c {
        '0' => Some(0),
        '1' => Some(1),
        '2' => Some(2),
        '3' => Some(3),
        '4' => Some(4),
        '5' => Some(5),
        '6' => Some(6),
        '7' => Some(7),
        '8' => Some(8),
        '9' => Some(9),
        _ => None,
    }
}

/// Reads a non-empty all-digit string as a `u32`; anything else, or a value
/// over `u32::MAX`, is refused.
pub fn parse_u32(s: &str) -> (r: Option<u32>)
    ensures
        match r {
            Some(v) => s@.len() > 0 && is_digit_seq(s@) && digits_val(s@) <= u32::MAX
                && v == digits_val(s@),
            None => s@.len() == 0 || !is_digit_seq(s@) || digits_val(s@) > u32::MAX,
        },
{
    let len = s.unicode_len();
    if len == 0 {
        return None;
    }
    let mut value: u32 = 0;
    let mut i: usize = 0;
    while i < len
        invariant
            len == s@.len(),
            0 <= i <= len,
            is_digit_seq(s@.take(i as int)),
            value == digits_val(s@.take(i as int)),
        decreases len - i,
    {
        let c = s.get_char(i);
        let d = match digit_of_char(c) {
            Some(d) => d,
            None => {
                proof {
                    assert(!is_digit(s@[i as int]));
                }
                return None;
            },
        };
        proof {
            assert(s@.take(i as int + 1).drop_last() =~= s@.take(i as int));
            assert(s@.take(i as int + 1).last() == s@[i as int]);
        }
        if value > (u32::MAX - d as u32) / 10 {
            proof {
                let pre = s@.take(i as int + 1);
                assert(digits_val(pre) == value * 10 + d);
                assert(digits_val(pre) > u32::MAX);
                if is_digit_seq(s@) {
                    lemma_digits_prefix_le(s@, i as int + 1);
                }
            }
            return None;
        }
        value = value * 10 + d as u32;
        i = i + 1;
    }
    proof {
        assert(s@.take(len as int) =~= s@);
    }
    Some(value)
}

/// Renders `n` in decimal.
pub fn u32_to_string(n: u32) -> (r: String)
    ensures
        r@ == digits_of(n as nat),
    decreases n,
{
    let d: u32 = n % 10;
    let ds: &str = match d {
        0 => "0",
        1 => "1",
        2 => "2",
        3 => "3",
        4 => "4",
        5 => "5",
        6 => "6",
        7 => "7",
        8 => "8",
        _ => "9",
    };
    proof {
        reveal_strlit("0");
        reveal_strlit("1");
        reveal_strlit("2");
        reveal_strlit("3");
        reveal_strlit("4");
        reveal_strlit("5");
        reveal_strlit("6");
        reveal_strlit("7");
        reveal_strlit("8");
        reveal_strlit("9");
        assert(ds@ =~= seq![digit_char((n % 10) as nat)]);
    }
    if n < 10 {
        proof {
            assert(digits_of(n as nat) =~= seq![digit_char(n as nat)]);
        }
        ds.to_owned()
    } else {
        let mut s = u32_to_string(n / 10);
        s.append(ds);
        proof {
            assert(digits_of(n as nat) =~= digits_of((n / 10) as nat).push(
                digit_char((n % 10) as nat),
            ));
            assert(digits_of((n / 10) as nat).push(digit_char((n % 10) as nat)) =~= digits_of(
                (n / 10) as nat,
            ) + seq![digit_char((n % 10) as nat)]);
        }
        s
    }
}

} // verus!
