//! Text helpers: strings as sequences of characters, and the slash-delimited
//! paths that services, addresses and topics are written in.

use vstd::prelude::*;
use vstd::std_specs::iter::IteratorSpec;
use vstd::string::StringExecFns;
use vstd::string::StringSliceAdditionalSpecFns;

verus! {

/// `s` without the slashes it starts with.
pub open spec fn strip_leading(s: Seq<char>) -> Seq<char>
    decreases s.len(),
{
    if s.len() > 0 && s.first() == '/' {
        strip_leading(s.drop_first())
    } else {
        s
    }
}

/// `s` without the slashes it ends with.
pub open spec fn strip_trailing(s: Seq<char>) -> Seq<char>
    decreases s.len(),
{
    if s.len() > 0 && s.last() == '/' {
        strip_trailing(s.drop_last())
    } else {
        s
    }
}

/// A path in normal form: no slash at either end.
pub open spec fn normalize_path(s: Seq<char>) -> Seq<char> {
    strip_trailing(strip_leading(s))
}

/// The position of the last slash of `s`, or -1 where it has none.
pub open spec fn last_slash(s: Seq<char>) -> int
    decreases s.len(),
{
    if s.len() == 0 {
        -1
    } else if s.last() == '/' {
        s.len() - 1
    } else {
        last_slash(s.drop_last())
    }
}

/// Whether `s` is in normal form.
pub open spec fn is_normal(s: Seq<char>) -> bool {
    s.len() > 0 ==> s.first() != '/' && s.last() != '/'
}

/// Stripping leading slashes leaves a suffix that does not start with one.
pub proof fn lemma_strip_leading(s: Seq<char>)
    ensures
        strip_leading(s).len() <= s.len(),
        strip_leading(s) == s.subrange(s.len() - strip_leading(s).len(), s.len() as int),
        strip_leading(s).len() > 0 ==> strip_leading(s).first() != '/',
        forall|i: int| 0 <= i < s.len() - strip_leading(s).len() ==> s[i] == '/',
    decreases s.len(),
{
    if s.len() > 0 && s.first() == '/' {
        let t = s.drop_first();
        lemma_strip_leading(t);
        let r = strip_leading(t);
        assert(t.subrange(t.len() - r.len(), t.len() as int) =~= s.subrange(
            s.len() - r.len(),
            s.len() as int,
        ));
        assert forall|i: int| 0 <= i < s.len() - r.len() implies s[i] == '/' by {
            if i > 0 {
                assert(s[i] == t[i - 1]);
            }
        }
    } else {
        assert(s.subrange(0, s.len() as int) =~= s);
    }
}

/// Stripping trailing slashes leaves a prefix that does not end with one.
pub proof fn lemma_strip_trailing(s: Seq<char>)
    ensures
        strip_trailing(s).len() <= s.len(),
        strip_trailing(s) == s.subrange(0, strip_trailing(s).len() as int),
        strip_trailing(s).len() > 0 ==> strip_trailing(s).last() != '/',
        forall|i: int| strip_trailing(s).len() <= i < s.len() ==> s[i] == '/',
    decreases s.len(),
{
    if s.len() > 0 && s.last() == '/' {
        let t = s.drop_last();
        lemma_strip_trailing(t);
        let r = strip_trailing(t);
        assert(t.subrange(0, r.len() as int) =~= s.subrange(0, r.len() as int));
        assert forall|i: int| r.len() <= i < s.len() implies s[i] == '/' by {
            if i < t.len() {
                assert(s[i] == t[i]);
            }
        }
    } else {
        assert(s.subrange(0, s.len() as int) =~= s);
    }
}

/// A normalized path is in normal form, and a path in normal form is its own
/// normal form.
pub proof fn lemma_normalize_path(s: Seq<char>)
    ensures
        is_normal(normalize_path(s)),
        is_normal(s) ==> normalize_path(s) == s,
        normalize_path(normalize_path(s)) == normalize_path(s),
{
    let a = strip_leading(s);
    lemma_strip_leading(s);
    lemma_strip_trailing(a);
    let b = strip_trailing(a);
    if b.len() > 0 {
        assert(b.first() == a[0]);
    }
    lemma_strip_leading(b);
    lemma_strip_trailing(b);
}

/// The last slash is where `last_slash` says, and nowhere after it.
pub proof fn lemma_last_slash(s: Seq<char>)
    ensures
        -1 <= last_slash(s) < s.len(),
        last_slash(s) >= 0 ==> s[last_slash(s)] == '/',
        forall|i: int| last_slash(s) < i < s.len() ==> s[i] != '/',
    decreases s.len(),
{
    if s.len() > 0 && s.last() != '/' {
        let t = s.drop_last();
        lemma_last_slash(t);
        assert forall|i: int| last_slash(s) < i < s.len() implies s[i] != '/' by {
            if i < t.len() {
                assert(s[i] == t[i]);
            }
        }
    }
}

/// Where the leading slashes of `s` end, its stripped form begins.
pub proof fn lemma_strip_leading_at(s: Seq<char>, i: int)
    requires
        0 <= i <= s.len(),
        forall|k: int| 0 <= k < i ==> s[k] == '/',
        i < s.len() ==> s[i] != '/',
    ensures
        strip_leading(s) == s.subrange(i, s.len() as int),
    decreases i,
{
    if i == 0 {
        assert(s.subrange(0, s.len() as int) =~= s);
    } else {
        let t = s.drop_first();
        assert forall|k: int| 0 <= k < i - 1 implies t[k] == '/' by {
            assert(t[k] == s[k + 1]);
        }
        lemma_strip_leading_at(t, i - 1);
        assert(t.subrange(i - 1, t.len() as int) =~= s.subrange(i, s.len() as int));
    }
}

/// Where the trailing slashes of `s` begin, its stripped form ends.
pub proof fn lemma_strip_trailing_at(s: Seq<char>, j: int)
    requires
        0 <= j <= s.len(),
        forall|k: int| j <= k < s.len() ==> s[k] == '/',
        j > 0 ==> s[j - 1] != '/',
    ensures
        strip_trailing(s) == s.subrange(0, j),
    decreases s.len() - j,
{
    if j == s.len() {
        assert(s.subrange(0, s.len() as int) =~= s);
    } else {
        let t = s.drop_last();
        lemma_strip_trailing_at(t, j);
        assert(t.subrange(0, j) =~= s.subrange(0, j));
    }
}

/// Where the last slash of `s` stands, `last_slash` finds it.
pub proof fn lemma_last_slash_at(s: Seq<char>, k: int)
    requires
        -1 <= k < s.len(),
        k >= 0 ==> s[k] == '/',
        forall|i: int| k < i < s.len() ==> s[i] != '/',
    ensures
        last_slash(s) == k,
    decreases s.len(),
{
    if s.len() > 0 && k != s.len() - 1 {
        lemma_last_slash_at(s.drop_last(), k);
    }
}

/// The characters of a string, in order.
pub fn chars_of(s: &str) -> (out: Vec<char>)
    ensures
        out@ == s@,
{
    let mut it = s.chars();
    let mut out: Vec<char> = Vec::new();
    loop
        invariant
            it.obeys_prophetic_iter_laws(),
            it.decrease() is Some,
            out@ + it.remaining() == s@,
        ensures
            out@ == s@,
        decreases it.decrease()->0,
    {
        let ghost before = it.remaining();
        match it.next() {
            Some(c) => {
                out.push(c);
                assert(out@ + it.remaining() =~= s@) by {
                    assert(before =~= seq![c] + it.remaining());
                }
            },
            None => {
                assert(out@ =~= s@);
                break ;
            },
        }
    }
    out
}

/// Whether two strings hold the same characters.
pub fn same_text(a: &str, b: &str) -> (r: bool)
    ensures
        r == (a@ == b@),
{
    let x = a.as_bytes();
    let y = b.as_bytes();
    proof {
        vstd::utf8::encode_utf8_decode_utf8(a@);
        vstd::utf8::encode_utf8_decode_utf8(b@);
    }
    if x.len() != y.len() {
        return false;
    }
    let mut i: usize = 0;
    while i < x.len()
        invariant
            i <= x.len(),
            x.len() == y.len(),
            x@ == a.spec_bytes(),
            y@ == b.spec_bytes(),
            forall|j: int| 0 <= j < i ==> x@[j] == y@[j],
        decreases x.len() - i,
    {
        if x[i] != y[i] {
            return false;
        }
        i += 1;
    }
    assert(x@ =~= y@);
    true
}

/// The first position at or after `from` that holds no slash, or `to`.
pub(crate) fn skip_slashes(chars: &Vec<char>, from: usize, to: usize) -> (i: usize)
    requires
        from <= to <= chars.len(),
    ensures
        from <= i <= to,
        forall|k: int| from <= k < i ==> chars@[k] == '/',
        i < to ==> chars@[i as int] != '/',
{
    let mut i: usize = from;
    while i < to && chars[i] == '/'
        invariant
            from <= i <= to <= chars.len(),
            forall|k: int| from <= k < i ==> chars@[k] == '/',
        decreases to - i,
    {
        i += 1;
    }
    i
}

/// The end of the part of `chars[from..to]` that is left when its trailing
/// slashes are dropped.
pub(crate) fn skip_slashes_back(chars: &Vec<char>, from: usize, to: usize) -> (j: usize)
    requires
        from <= to <= chars.len(),
    ensures
        from <= j <= to,
        forall|k: int| j <= k < to ==> chars@[k] == '/',
        j > from ==> chars@[j - 1] != '/',
{
    let mut j: usize = to;
    while j > from && chars[j - 1] == '/'
        invariant
            from <= j <= to <= chars.len(),
            forall|k: int| j <= k < to ==> chars@[k] == '/',
        decreases j,
    {
        j -= 1;
    }
    j
}

/// The position of the last slash in `chars[from..to]`, if it has one.
pub(crate) fn find_last_slash(chars: &Vec<char>, from: usize, to: usize) -> (r: Option<usize>)
    requires
        from <= to <= chars.len(),
    ensures
        match r {
            Some(k) => from <= k < to && last_slash(chars@.subrange(from as int, to as int)) == k
                - from,
            None => last_slash(chars@.subrange(from as int, to as int)) == -1,
        },
{
    let ghost part = chars@.subrange(from as int, to as int);
    let mut k: usize = to;
    while k > from
        invariant
            from <= k <= to <= chars.len(),
            part == chars@.subrange(from as int, to as int),
            forall|i: int| k <= i < to ==> chars@[i] != '/',
        decreases k,
    {
        if chars[k - 1] == '/' {
            proof {
                lemma_last_slash_at(part, k - 1 - from);
            }
            return Some(k - 1);
        }
        k -= 1;
    }
    proof {
        lemma_last_slash_at(part, -1);
    }
    None
}

/// The normal form of a path: the path without the slashes at its ends.
pub fn normalized(path: &str) -> (r: String)
    ensures
        r@ == normalize_path(path@),
{
    let chars = chars_of(path);
    let i = skip_slashes(&chars, 0, chars.len());
    let j = skip_slashes_back(&chars, i, chars.len());
    proof {
        let s = path@;
        lemma_strip_leading_at(s, i as int);
        let a = s.subrange(i as int, s.len() as int);
        lemma_strip_trailing_at(a, j - i);
        assert(a.subrange(0, j - i) =~= s.subrange(i as int, j as int));
    }
    let part = path.substring_char(i, j);
    part.to_owned()
}

/// The upper-case form of a text, as the standard library makes it.
pub uninterp spec fn uppercase_of(s: Seq<char>) -> Seq<char>;

/// The upper-case form of a text.
///
/// Calls `str::to_uppercase` of the standard library. The contract gives
/// the result a name and claims nothing else of it: the result depends on
/// the characters of the text alone.
#[verifier::external_body]
pub(crate) fn to_uppercase(s: &str) -> (r: String)
    ensures
        r@ == uppercase_of(s@),
{
    s.to_uppercase()
}

/// The character of the digit `d`.
pub open spec fn digit_char(d: int) -> char {
    if d == 0 {
        '0'
    } else if d == 1 {
        '1'
    } else if d == 2 {
        '2'
    } else if d == 3 {
        '3'
    } else if d == 4 {
        '4'
    } else if d == 5 {
        '5'
    } else if d == 6 {
        '6'
    } else if d == 7 {
        '7'
    } else if d == 8 {
        '8'
    } else {
        '9'
    }
}

/// The digits of `n` in base 10, the most significant first.
pub open spec fn digits(n: nat) -> Seq<char>
    decreases n,
{
    if n < 10 {
        seq![digit_char(n as int)]
    } else {
        digits(n / 10).push(digit_char((n % 10) as int))
    }
}

/// A number in base 10, with a minus sign before a negative one.
pub open spec fn decimal_text(n: int) -> Seq<char> {
    if n < 0 {
        seq!['-'] + digits((-n) as nat)
    } else {
        digits(n as nat)
    }
}

/// The text of one digit.
fn digit_str(d: u64) -> (r: &'static str)
    requires
        d < 10,
    ensures
        r@ == seq![digit_char(d as int)],
{
    proof {
        reveal_strlit("0");
        reveal_strlit("1");
        reveal_strlit("2");
        reveal_strlit("3");
        reveal_strlit("4");
        reveal_strlit("5");
        reveal_strlit("6");
        reveal_strlit("7");
        reveal_strlit("8");
        reveal_strlit("9");
    }
    let r = if d == 0 {
        "0"
    } else if d == 1 {
        "1"
    } else if d == 2 {
        "2"
    } else if d == 3 {
        "3"
    } else if d == 4 {
        "4"
    } else if d == 5 {
        "5"
    } else if d == 6 {
        "6"
    } else if d == 7 {
        "7"
    } else if d == 8 {
        "8"
    } else {
        "9"
    };
    assert(r@ =~= seq![digit_char(d as int)]);
    r
}

/// The digits of `n` in base 10.
pub fn digits_of(n: u64) -> (r: String)
    ensures
        r@ == digits(n as nat),
    decreases n,
{
    if n < 10 {
        digit_str(n).to_owned()
    } else {
        let mut r = digits_of(n / 10);
        r.append(digit_str(n % 10));
        r
    }
}

/// A number in base 10, with a minus sign before a negative one.
pub fn decimal(n: i64) -> (r: String)
    ensures
        r@ == decimal_text(n as int),
{
    if n < 0 {
        // -(n + 1) fits where -n may not.
        let less: i64 = -(n + 1);
        let magnitude: u64 = less as u64 + 1;
        let mut r = "-".to_owned();
        proof {
            reveal_strlit("-");
            assert("-"@ =~= seq!['-']);
        }
        let d = digits_of(magnitude);
        r.append(d.as_str());
        r
    } else {
        digits_of(n as u64)
    }
}

/// `a` followed by `b`.
pub fn joined(a: &str, b: &str) -> (r: String)
    ensures
        r@ == a@ + b@,
{
    let mut r = a.to_owned();
    r.append(b);
    r
}

} // verus!
