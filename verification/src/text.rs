//! Small text helpers: decimal formatting for storage keys, the
//! number and list parsing used by the profile endpoints, and the
//! little string decisions of the login flow.

use vstd::prelude::*;

verus! {

/// The character for one decimal digit.
pub open spec fn digit_char(d: int) -> char {
    if d == 0 {
        '0'
    } else if d == 1 {
        '1'
    } else if d == 2 {
        '2'
    } else if d == 3 {
        '3'
    } else if d == 4 {
        '4'
    } else if d == 5 {
        '5'
    } else if d == 6 {
        '6'
    } else if d == 7 {
        '7'
    } else if d == 8 {
        '8'
    } else {
        '9'
    }
}

/// The decimal digits of `n`, most significant first, no leading
/// zeros (except for zero itself).
pub open spec fn dec_digits(n: nat) -> Seq<char>
    decreases n,
{
    if n < 10 {
        seq![digit_char(n as int)]
    } else {
        dec_digits(n / 10) + seq![digit_char((n % 10) as int)]
    }
}

/// One digit as a string slice.
fn digit_str(d: i64) -> (s: &'static str)
    requires
        0 <= d < 10,
    ensures
        s@ =~= seq![digit_char(d as int)],
{
    proof {
        reveal_strlit("0");
        reveal_strlit("1");
        reveal_strlit("2");
        reveal_strlit("3");
        reveal_strlit("4");
        reveal_strlit("5");
        reveal_strlit("6");
        reveal_strlit("7");
        reveal_strlit("8");
        reveal_strlit("9");
    }
    if d == 0 {
        "0"
    } else if d == 1 {
        "1"
    } else if d == 2 {
        "2"
    } else if d == 3 {
        "3"
    } else if d == 4 {
        "4"
    } else if d == 5 {
        "5"
    } else if d == 6 {
        "6"
    } else if d == 7 {
        "7"
    } else if d == 8 {
        "8"
    } else {
        "9"
    }
}

/// `n` written in decimal.
pub fn format_nonneg(n: i64) -> (s: String)
    requires
        n >= 0,
    ensures
        s@ == dec_digits(n as nat),
    decreases n,
{
    if n < 10 {
        digit_str(n).to_owned()
    } else {
        let mut s = format_nonneg(n / 10);
        s.append(digit_str(n % 10));
        s
    }
}

/// The blob-store key under which a user's profile image is kept.
pub open spec fn profile_key_of(id: int) -> Seq<char> {
    "profiles/"@ + dec_digits(id as nat)
}

/// `profiles/{id}`.
pub fn profile_image_key(id: i64) -> (s: String)
    requires
        id >= 0,
    ensures
        s@ == profile_key_of(id as int),
{
    let mut s: String = "profiles/".to_owned();
    let digits = format_nonneg(id);
    s.append(digits.as_str());
    s
}

/// The blob-store key under which a message's image is kept.
pub open spec fn message_key_of(id: int) -> Seq<char> {
    "messages/"@ + dec_digits(id as nat)
}

/// `messages/{id}`.
pub fn message_image_key(id: i64) -> (s: String)
    requires
        id >= 0,
    ensures
        s@ == message_key_of(id as int),
{
    let mut s: String = "messages/".to_owned();
    let digits = format_nonneg(id);
    s.append(digits.as_str());
    s
}

/// Is this one of the blank characters the profile parser strips?
pub open spec fn is_space_char(c: char) -> bool {
    c == ' ' || c == '\t' || c == '\n' || c == '\r'
}

/// `s` with its leading blanks removed.
pub open spec fn trim_front(s: Seq<char>) -> Seq<char>
    decreases s.len(),
{
    if s.len() > 0 && is_space_char(s[0]) {
        trim_front(s.drop_first())
    } else {
        s
    }
}

/// `s` with its trailing blanks removed.
pub open spec fn trim_back(s: Seq<char>) -> Seq<char>
    decreases s.len(),
{
    if s.len() > 0 && is_space_char(s.last()) {
        trim_back(s.drop_last())
    } else {
        s
    }
}

/// `s` with blanks removed from both ends.
pub open spec fn trimmed_of(s: Seq<char>) -> Seq<char> {
    trim_back(trim_front(s))
}

/// Executable test for [`is_space_char`].
fn is_space(c: char) -> (r: bool)
    ensures
        r == is_space_char(c),
{
    c == ' ' || c == '\t' || c == '\n' || c == '\r'
}

/// `s` without leading or trailing blanks.
pub fn trim_spaces(s: &str) -> (r: &str)
    ensures
        r@ == trimmed_of(s@),
{
    let len = s.unicode_len();
    proof {
        assert(s@.subrange(0, len as int) =~= s@);
    }
    let mut lo: usize = 0;
    while lo < len && is_space(s.get_char(lo))
        invariant
            len == s@.len(),
            lo <= len,
            trim_front(s@) == trim_front(s@.subrange(lo as int, len as int)),
        decreases len - lo,
    {
        proof {
            let cur = s@.subrange(lo as int, len as int);
            assert(cur.drop_first() =~= s@.subrange(lo + 1, len as int));
        }
        lo += 1;
    }
    proof {
        let cur = s@.subrange(lo as int, len as int);
        if cur.len() > 0 {
            assert(cur[0] == s@[lo as int]);
        }
        assert(trim_front(s@) == cur);
    }
    let mut hi: usize = len;
    while hi > lo && is_space(s.get_char(hi - 1))
        invariant
            len == s@.len(),
            lo <= hi <= len,
            trim_front(s@) == s@.subrange(lo as int, len as int),
            trim_back(s@.subrange(lo as int, len as int)) == trim_back(
                s@.subrange(lo as int, hi as int),
            ),
        decreases hi,
    {
        proof {
            let cur = s@.subrange(lo as int, hi as int);
            assert(cur.last() == s@[hi - 1]);
            assert(cur.drop_last() =~= s@.subrange(lo as int, hi - 1));
        }
        hi -= 1;
    }
    proof {
        let cur = s@.subrange(lo as int, hi as int);
        if cur.len() > 0 {
            assert(cur.last() == s@[hi - 1]);
        }
        assert(trim_back(s@.subrange(lo as int, len as int)) == cur);
    }
    s.substring_char(lo, hi)
}

/// Is this an ASCII decimal digit?
pub open spec fn is_digit_char(c: char) -> bool {
    48 <= c as int <= 57
}

/// The numeric value of a digit character.
pub open spec fn digit_of(c: char) -> int {
    c as int - 48
}

/// Is `s` entirely decimal digits?
pub open spec fn all_digits(s: Seq<char>) -> bool {
    forall|i: int| 0 <= i < s.len() ==> is_digit_char(#[trigger] s[i])
}

/// The value of a digit string, most significant digit first.
pub open spec fn digits_value(s: Seq<char>) -> int
    decreases s.len(),
{
    if s.len() == 0 {
        0
    } else {
        digits_value(s.drop_last()) * 10 + digit_of(s.last())
    }
}

/// A digit string's value is never negative.
pub proof fn lemma_digits_value_nonneg(s: Seq<char>)
    requires
        all_digits(s),
    ensures
        digits_value(s) >= 0,
    decreases s.len(),
{
    if s.len() > 0 {
        assert(all_digits(s.drop_last())) by {
            assert(forall|i: int| 0 <= i < s.len() - 1 ==> s.drop_last()[i] == #[trigger] s[i]);
        }
        lemma_digits_value_nonneg(s.drop_last());
    }
}

/// Appending digits never shrinks the value.
pub proof fn lemma_digits_value_prefix(s: Seq<char>, k: int)
    requires
        all_digits(s),
        0 <= k <= s.len(),
    ensures
        digits_value(s) >= digits_value(s.subrange(0, k)),
    decreases s.len() - k,
{
    if k < s.len() {
        lemma_digits_value_prefix(s, k + 1);
        let shorter = s.subrange(0, k);
        let longer = s.subrange(0, k + 1);
        assert(longer.drop_last() =~= shorter);
        assert(longer.last() == s[k]);
        lemma_digits_value_nonneg(shorter);
    } else {
        assert(s.subrange(0, k) =~= s);
    }
}

/// What an optionally signed decimal numeral denotes, when it lies in
/// `i64`'s range: one optional `+` or `-`, then one or more digits,
/// nothing else.
pub open spec fn parsed_i64(s: Seq<char>) -> Option<i64> {
    if s.len() >= 1 && (s[0] == '-' || s[0] == '+') {
        let body = s.subrange(1, s.len() as int);
        if body.len() >= 1 && all_digits(body) {
            if s[0] == '-' {
                if -digits_value(body) >= i64::MIN {
                    Some((-digits_value(body)) as i64)
                } else {
                    None
                }
            } else {
                if digits_value(body) <= i64::MAX {
                    Some(digits_value(body) as i64)
                } else {
                    None
                }
            }
        } else {
            None
        }
    } else if s.len() >= 1 && all_digits(s) {
        if digits_value(s) <= i64::MAX {
            Some(digits_value(s) as i64)
        } else {
            None
        }
    } else {
        None
    }
}

/// `i64::MIN / 10`, used for the overflow test while accumulating.
pub const I64_MIN_OVER_TEN: i64 = -922337203685477580;

/// Parse an optionally signed decimal numeral. Returns `None` for an
/// empty or malformed string and for values outside `i64`'s range —
/// the behaviour profile and message forms rely on.
pub fn parse_i64(s: &str) -> (r: Option<i64>)
    ensures
        r == parsed_i64(s@),
{
    let len = s.unicode_len();
    if len == 0 {
        return None;
    }
    let first = s.get_char(0);
    let signed: bool = first == '-' || first == '+';
    let neg: bool = first == '-';
    let start: usize = if signed {
        1
    } else {
        0
    };
    if start >= len {
        return None;
    }
    let ghost body: Seq<char> = s@.subrange(start as int, len as int);
    // Accumulate negated, so `i64::MIN` itself can be reached.
    let mut acc: i64 = 0;
    let mut i: usize = start;
    while i < len
        invariant
            len == s@.len(),
            start <= i <= len,
            start < len,
            signed == (s@[0] == '-' || s@[0] == '+'),
            neg == (s@[0] == '-'),
            start == (if signed {
                1int
            } else {
                0int
            }),
            body == s@.subrange(start as int, len as int),
            all_digits(s@.subrange(start as int, i as int)),
            acc == -digits_value(s@.subrange(start as int, i as int)),
            i64::MIN <= acc <= 0,
        decreases len - i,
    {
        let c = s.get_char(i);
        let code = c as u32;
        if code < 48 || code > 57 {
            proof {
                assert(!is_digit_char(s@[i as int]));
                assert(body[i - start] == s@[i as int]);
                assert(!all_digits(body));
                if !signed {
                    assert(body =~= s@);
                }
            }
            return None;
        }
        let d = (code - 48) as i64;
        let ghost prefix = s@.subrange(start as int, i as int);
        let ghost prefix1 = s@.subrange(start as int, i + 1);
        proof {
            assert(prefix1.drop_last() =~= prefix);
            assert(prefix1.last() == s@[i as int]);
            assert(all_digits(prefix1)) by {
                assert(forall|j: int|
                    0 <= j < prefix.len() ==> prefix1[j] == #[trigger] prefix[j]);
            }
        }
        if acc < I64_MIN_OVER_TEN || (acc == I64_MIN_OVER_TEN && d > 8) {
            // The magnitude has left i64's range; more digits only
            // grow it, and a later junk character rejects anyway.
            proof {
                assert(digits_value(prefix1) == -(acc as int) * 10 + d);
                if all_digits(body) {
                    assert(prefix1 =~= body.subrange(0, i + 1 - start));
                    lemma_digits_value_prefix(body, i + 1 - start);
                    assert(digits_value(body) > 9223372036854775808int);
                }
                if !signed {
                    assert(body =~= s@);
                }
            }
            return None;
        }
        acc = acc * 10 - d;
        i += 1;
        proof {
            assert(s@.subrange(start as int, i as int) == prefix1);
        }
    }
    proof {
        assert(s@.subrange(start as int, i as int) =~= body);
        if !signed {
            assert(body =~= s@);
        }
        lemma_digits_value_nonneg(body);
    }
    if neg {
        Some(acc)
    } else {
        if acc == i64::MIN {
            return None;
        }
        Some(-acc)
    }
}

/// Strict lexicographic order on character sequences, by code point:
/// a proper prefix comes first, otherwise the first differing
/// character decides.
pub open spec fn lex_lt(a: Seq<char>, b: Seq<char>) -> bool
    decreases a.len(),
{
    if b.len() == 0 {
        false
    } else if a.len() == 0 {
        true
    } else if (a[0] as int) < (b[0] as int) {
        true
    } else if a[0] != b[0] {
        false
    } else {
        lex_lt(a.drop_first(), b.drop_first())
    }
}

/// Two distinct sequences are lexicographically comparable.
pub proof fn lemma_lex_total(a: Seq<char>, b: Seq<char>)
    ensures
        a == b || lex_lt(a, b) || lex_lt(b, a),
    decreases a.len(),
{
    if a.len() == 0 || b.len() == 0 {
        if a.len() == b.len() {
            assert(a =~= b);
        }
    } else if a[0] == b[0] {
        lemma_lex_total(a.drop_first(), b.drop_first());
        if a.drop_first() == b.drop_first() {
            assert(a.drop_first().len() == a.len() - 1);
            assert(b.drop_first().len() == b.len() - 1);
            assert(a.len() == b.len());
            assert forall|i: int| 0 <= i < a.len() implies a[i] == b[i] by {
                if i > 0 {
                    assert(a[i] == a.drop_first()[i - 1]);
                    assert(b[i] == b.drop_first()[i - 1]);
                }
            }
            assert(a =~= b);
        }
    }
}

/// Lexicographic order composes.
pub proof fn lemma_lex_trans(a: Seq<char>, b: Seq<char>, c: Seq<char>)
    requires
        lex_lt(a, b),
        lex_lt(b, c),
    ensures
        lex_lt(a, c),
    decreases a.len(),
{
    if a.len() == 0 {
    } else {
        if (a[0] as int) == (c[0] as int) {
            assert(a[0] == b[0] && b[0] == c[0]);
            lemma_lex_trans(a.drop_first(), b.drop_first(), c.drop_first());
        }
    }
}

/// Executable lexicographic comparison of two strings.
pub fn name_lt(a: &str, b: &str) -> (r: bool)
    ensures
        r == lex_lt(a@, b@),
{
    let la = a.unicode_len();
    let lb = b.unicode_len();
    proof {
        assert(a@.skip(0) =~= a@);
        assert(b@.skip(0) =~= b@);
    }
    let mut i: usize = 0;
    while i < la && i < lb
        invariant
            la == a@.len(),
            lb == b@.len(),
            i <= la,
            i <= lb,
            lex_lt(a@, b@) == lex_lt(a@.skip(i as int), b@.skip(i as int)),
        decreases la - i,
    {
        let ca = a.get_char(i);
        let cb = b.get_char(i);
        proof {
            assert(a@.skip(i as int)[0] == a@[i as int]);
            assert(b@.skip(i as int)[0] == b@[i as int]);
        }
        if (ca as u32) < (cb as u32) {
            return true;
        }
        if (ca as u32) > (cb as u32) {
            return false;
        }
        proof {
            assert(a@.skip(i as int).drop_first() =~= a@.skip(i + 1));
            assert(b@.skip(i as int).drop_first() =~= b@.skip(i + 1));
        }
        i += 1;
    }
    proof {
        if i < lb {
            assert(b@.skip(i as int).len() > 0);
        }
    }
    i < lb
}

/// The position of the first occurrence of `c` in `s`, or `s`'s
/// length when it does not occur.
pub open spec fn first_at(s: Seq<char>, c: char) -> nat
    decreases s.len(),
{
    if s.len() == 0 {
        0
    } else if s[0] == c {
        0
    } else {
        1 + first_at(s.drop_first(), c)
    }
}

/// A scan that stopped at `i` found the first occurrence.
pub proof fn lemma_first_at(s: Seq<char>, c: char, i: int)
    requires
        0 <= i <= s.len(),
        forall|j: int| 0 <= j < i ==> s[j] != c,
        i < s.len() ==> s[i] == c,
    ensures
        first_at(s, c) == i,
    decreases i,
{
    if s.len() == 0 {
    } else if i == 0 {
    } else {
        assert(s[0] != c);
        let rest = s.drop_first();
        assert forall|j: int| 0 <= j < i - 1 implies rest[j] != c by {
            assert(rest[j] == s[j + 1]);
        }
        if i - 1 < rest.len() {
            assert(rest[i - 1] == s[i]);
        }
        lemma_first_at(rest, c, i - 1);
    }
}

/// The cleaned tag list of a free-text interests field: the fields
/// between commas, each trimmed, with empty fields dropped.
pub open spec fn tag_list(s: Seq<char>) -> Seq<Seq<char>>
    decreases s.len(),
{
    let i = first_at(s, ',') as int;
    if i >= s.len() {
        if trimmed_of(s).len() == 0 {
            Seq::empty()
        } else {
            seq![trimmed_of(s)]
        }
    } else {
        let head = trimmed_of(s.subrange(0, i));
        let rest = tag_list(s.subrange(i + 1, s.len() as int));
        if head.len() == 0 {
            rest
        } else {
            seq![head] + rest
        }
    }
}

/// Parse the free-text interests field: split on commas, trim each
/// piece, drop the empties.
pub fn parse_interest_list(s: &str) -> (r: Vec<String>)
    ensures
        r@.map_values(|t: String| t@) == tag_list(s@),
    decreases s@.len(),
{
    let len = s.unicode_len();
    let mut i: usize = 0;
    while i < len && s.get_char(i) != ','
        invariant
            len == s@.len(),
            i <= len,
            forall|j: int| 0 <= j < i ==> s@[j] != ',',
        decreases len - i,
    {
        i += 1;
    }
    proof {
        lemma_first_at(s@, ',', i as int);
    }
    if i >= len {
        let t = trim_spaces(s);
        if t.unicode_len() == 0 {
            let r: Vec<String> = Vec::new();
            proof {
                assert(r@.map_values(|t2: String| t2@) =~= tag_list(s@));
            }
            r
        } else {
            let mut r: Vec<String> = Vec::new();
            r.push(t.to_owned());
            proof {
                assert(r@.map_values(|t2: String| t2@) =~= tag_list(s@));
            }
            r
        }
    } else {
        let head = trim_spaces(s.substring_char(0, i));
        let rest_str = s.substring_char(i + 1, len);
        let mut rest = parse_interest_list(rest_str);
        if head.unicode_len() == 0 {
            proof {
                assert(rest@.map_values(|t2: String| t2@) == tag_list(s@));
            }
            rest
        } else {
            let ghost before = rest@;
            rest.insert(0, head.to_owned());
            proof {
                before.insert_ensures(0, rest@[0]);
                assert(rest@.map_values(|t2: String| t2@) =~= tag_list(s@)) by {
                    let mapped = rest@.map_values(|t2: String| t2@);
                    let expected = tag_list(s@);
                    assert(mapped.len() == expected.len());
                    assert forall|p: int| 0 <= p < mapped.len() implies mapped[p]
                        == expected[p] by {
                        if p == 0 {
                            assert(mapped[0] == rest@[0]@);
                        } else {
                            assert(rest@[p] == before[p - 1]);
                            assert(mapped[p] == before.map_values(|t2: String| t2@)[p - 1]);
                        }
                    }
                }
            }
            rest
        }
    }
}

} // verus!
