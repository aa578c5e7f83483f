use vstd::prelude::*;

verus! {

/// `needle` occurs as a contiguous run inside `hay` (the empty needle occurs everywhere).
pub open spec fn seq_contains(hay: Seq<char>, needle: Seq<char>) -> bool {
    exists|i: int|
        0 <= i && i + needle.len() <= hay.len() && #[trigger] hay.subrange(i, i + needle.len())
            == needle
}

/// Whether `c` has the Unicode `White_Space` property (what `char::is_whitespace`
/// answers): tab, line feed, vertical tab, form feed, carriage return, space,
/// next line, no-break space, ogham space mark, the spaces from en quad to hair
/// space, line and paragraph separators, narrow no-break space, medium
/// mathematical space and ideographic space.
pub open spec fn white_space(c: char) -> bool {
    let u = c as u32;
    ||| 0x09 <= u <= 0x0D
    ||| u == 0x20
    ||| u == 0x85
    ||| u == 0xA0
    ||| u == 0x1680
    ||| 0x2000 <= u <= 0x200A
    ||| u == 0x2028
    ||| u == 0x2029
    ||| u == 0x202F
    ||| u == 0x205F
    ||| u == 0x3000
}

/// What `str::to_lowercase` returns for a string that is not all ASCII (the
/// Unicode lowercase mapping, which takes tables to state).
pub uninterp spec fn unicode_lowercase(s: Seq<char>) -> Seq<char>;

/// Index of the first non-whitespace character at or after `i`, or `s.len()`.
pub open spec fn skip_white(s: Seq<char>, i: int) -> int
    decreases s.len() - i,
{
    if i < 0 || i >= s.len() {
        if i < 0 { 0 } else { s.len() as int }
    } else if white_space(s[i]) {
        skip_white(s, i + 1)
    } else {
        i
    }
}

/// One past the last non-whitespace character before `j`, or 0.
pub open spec fn skip_white_back(s: Seq<char>, j: int) -> int
    decreases j,
{
    if j <= 0 || j > s.len() {
        if j <= 0 { 0 } else { s.len() as int }
    } else if white_space(s[j - 1]) {
        skip_white_back(s, j - 1)
    } else {
        j
    }
}

/// `s` with its leading and trailing whitespace removed.
pub open spec fn trim_spec(s: Seq<char>) -> Seq<char> {
    let start = skip_white(s, 0);
    if start >= s.len() {
        Seq::empty()
    } else {
        s.subrange(start, skip_white_back(s, s.len() as int))
    }
}

/// Whether `c` has the Unicode `White_Space` property.
pub fn is_white_space(c: char) -> (r: bool)
    ensures
        r == white_space(c),
{
    let u = c as u32;
    (0x09 <= u && u <= 0x0D) || u == 0x20 || u == 0x85 || u == 0xA0 || u == 0x1680 || (0x2000 <= u
        && u <= 0x200A) || u == 0x2028 || u == 0x2029 || u == 0x202F || u == 0x205F || u == 0x3000
}

/// Whether every character of `s` is ASCII.
pub open spec fn is_ascii_text(s: Seq<char>) -> bool {
    forall|i: int| 0 <= i < s.len() ==> (#[trigger] s[i] as u32) < 128
}

/// The ASCII lowercase of a character: `A` to `Z` become `a` to `z`, every
/// other character stays.
pub open spec fn ascii_lower_char(c: char) -> char {
    if 'A' <= c <= 'Z' {
        ((c as u32) + 32) as char
    } else {
        c
    }
}

/// `s` with each character in ASCII lowercase.
pub open spec fn ascii_lower(s: Seq<char>) -> Seq<char> {
    s.map_values(|c: char| ascii_lower_char(c))
}

/// What `str::to_lowercase` returns for a string: the ASCII lowercase of an
/// all-ASCII string, the Unicode lowercase mapping otherwise.
pub open spec fn lowercase(s: Seq<char>) -> Seq<char> {
    if is_ascii_text(s) {
        ascii_lower(s)
    } else {
        unicode_lowercase(s)
    }
}

/// `str::to_lowercase`: the lowercase mapping of `s` by the Unicode `Lowercase`
/// property (std's documentation). It claims that an all-ASCII string maps
/// character by character, `A` to `Z` onto `a` to `z` (the Unicode mapping of
/// those letters); for other strings it only names the result.
#[verifier::external_body]
pub(crate) fn to_lowercase(s: &str) -> (r: String)
    ensures
        is_ascii_text(s@) ==> r@ == ascii_lower(s@),
        !is_ascii_text(s@) ==> r@ == unicode_lowercase(s@),
        r@ == lowercase(s@),
{
    s.to_lowercase()
}

/// The characters of a string, in order.
pub fn chars_of(s: &str) -> (v: Vec<char>)
    ensures
        v@ == s@,
{
    let n = s.unicode_len();
    let mut v: Vec<char> = Vec::new();
    let mut i: usize = 0;
    while i < n
        invariant
            n == s@.len(),
            i <= n,
            v@ == s@.subrange(0, i as int),
        decreases n - i,
    {
        v.push(s.get_char(i));
        i += 1;
        proof {
            assert(v@ =~= s@.subrange(0, i as int));
        }
    }
    proof {
        assert(s@.subrange(0, n as int) =~= s@);
    }
    v
}

/// Whether `prefix` is a prefix of `s`.
pub fn starts_with(s: &[char], prefix: &[char]) -> (r: bool)
    ensures
        r == prefix@.is_prefix_of(s@),
{
    if prefix.len() > s.len() {
        return false;
    }
    let mut i: usize = 0;
    while i < prefix.len()
        invariant
            prefix.len() <= s.len(),
            i <= prefix.len(),
            forall|k: int| 0 <= k < i ==> s@[k] == prefix@[k],
        decreases prefix.len() - i,
    {
        if s[i] != prefix[i] {
            return false;
        }
        i += 1;
    }
    assert(prefix@ =~= s@.subrange(0, prefix@.len() as int));
    true
}

/// Whether `needle` occurs as a contiguous run inside `hay`.
pub fn contains(hay: &[char], needle: &[char]) -> (r: bool)
    ensures
        r == seq_contains(hay@, needle@),
{
    if needle.len() > hay.len() {
        return false;
    }
    let last = hay.len() - needle.len();
    let mut i: usize = 0;
    while i <= last
        invariant
            last == hay.len() - needle.len(),
            needle.len() <= hay.len(),
            i <= last + 1,
            forall|k: int|
                0 <= k < i ==> #[trigger] hay@.subrange(k, k + needle@.len()) != needle@,
        decreases last + 1 - i,
    {
        let mut j: usize = 0;
        let mut same = true;
        while j < needle.len()
            invariant
                i <= last,
                last == hay.len() - needle.len(),
                j <= needle.len(),
                same == (forall|k: int| 0 <= k < j ==> hay@[i + k] == needle@[k]),
            decreases needle.len() - j,
        {
            if hay[i + j] != needle[j] {
                same = false;
            }
            j += 1;
        }
        if same {
            assert(hay@.subrange(i as int, i + needle@.len()) =~= needle@);
            return true;
        }
        assert(hay@.subrange(i as int, i + needle@.len()) != needle@) by {
            let k = choose|k: int| 0 <= k < needle.len() && hay@[i + k] != needle@[k];
            assert(hay@.subrange(i as int, i + needle@.len())[k] == hay@[i + k]);
        }
        i += 1;
    }
    proof {
        assert forall|k: int|
            0 <= k && k + needle@.len() <= hay@.len() implies #[trigger] hay@.subrange(
            k,
            k + needle@.len(),
        ) != needle@ by {
            assert(k < i);
        }
    }
    false
}

proof fn lemma_skip_white_bounds(s: Seq<char>, i: int)
    requires
        0 <= i <= s.len(),
    ensures
        i <= skip_white(s, i) <= s.len(),
        forall|k: int| i <= k < skip_white(s, i) ==> white_space(#[trigger] s[k]),
        skip_white(s, i) < s.len() ==> !white_space(s[skip_white(s, i)]),
    decreases s.len() - i,
{
    if i < s.len() && white_space(s[i]) {
        lemma_skip_white_bounds(s, i + 1);
    }
}

proof fn lemma_skip_white_back_bounds(s: Seq<char>, j: int)
    requires
        0 <= j <= s.len(),
    ensures
        0 <= skip_white_back(s, j) <= j,
        forall|k: int| skip_white_back(s, j) <= k < j ==> white_space(#[trigger] s[k]),
        skip_white_back(s, j) > 0 ==> !white_space(s[skip_white_back(s, j) - 1]),
    decreases j,
{
    if j > 0 && white_space(s[j - 1]) {
        lemma_skip_white_back_bounds(s, j - 1);
    }
}

/// Once a non-whitespace character exists at `p >= i`, skipping back from the end stops after it.
proof fn lemma_back_after(s: Seq<char>, j: int, p: int)
    requires
        0 <= p < j <= s.len(),
        !white_space(s[p]),
    ensures
        skip_white_back(s, j) > p,
    decreases j,
{
    if white_space(s[j - 1]) {
        lemma_back_after(s, j - 1, p);
    }
}

/// `s` with leading and trailing whitespace removed (what `str::trim` keeps).
pub fn trim(s: &[char]) -> (r: Vec<char>)
    ensures
        r@ == trim_spec(s@),
{
    let n = s.len();
    let mut start: usize = 0;
    while start < n && is_white_space(s[start])
        invariant
            n == s@.len(),
            start <= n,
            skip_white(s@, 0) == skip_white(s@, start as int),
        decreases n - start,
    {
        start += 1;
    }
    proof {
        lemma_skip_white_bounds(s@, start as int);
    }
    let mut r: Vec<char> = Vec::new();
    if start >= n {
        return r;
    }
    let mut end: usize = n;
    while end > start && is_white_space(s[end - 1])
        invariant
            n == s@.len(),
            start < n,
            start <= end <= n,
            skip_white_back(s@, n as int) == skip_white_back(s@, end as int),
        decreases end,
    {
        end -= 1;
    }
    proof {
        lemma_back_after(s@, n as int, start as int);
        lemma_skip_white_back_bounds(s@, end as int);
        assert(skip_white_back(s@, end as int) == end);
    }
    let mut k: usize = start;
    while k < end
        invariant
            start <= k <= end <= n,
            n == s@.len(),
            r@ == s@.subrange(start as int, k as int),
        decreases end - k,
    {
        r.push(s[k]);
        k += 1;
        proof {
            assert(r@ =~= s@.subrange(start as int, k as int));
        }
    }
    r
}

/// `String::push`: appends one character.
#[verifier::external_body]
pub(crate) fn push_char(s: &mut String, c: char)
    ensures
        final(s)@ == old(s)@.push(c),
{
    s.push(c)
}

/// A `String` holding exactly the given characters.
pub fn string_from_chars(v: &[char]) -> (s: String)
    ensures
        s@ == v@,
{
    let mut s = String::new();
    let mut i: usize = 0;
    while i < v.len()
        invariant
            i <= v.len(),
            s@ == v@.subrange(0, i as int),
        decreases v.len() - i,
    {
        push_char(&mut s, v[i]);
        i += 1;
        proof {
            assert(s@ =~= v@.subrange(0, i as int));
        }
    }
    proof {
        assert(v@.subrange(0, v@.len() as int) =~= v@);
    }
    s
}

/// Whether two character sequences are equal.
pub fn chars_eq(a: &[char], b: &[char]) -> (r: bool)
    ensures
        r == (a@ == b@),
{
    if a.len() != b.len() {
        return false;
    }
    let mut i: usize = 0;
    while i < a.len()
        invariant
            a.len() == b.len(),
            i <= a.len(),
            forall|k: int| 0 <= k < i ==> a@[k] == b@[k],
        decreases a.len() - i,
    {
        if a[i] != b[i] {
            return false;
        }
        i += 1;
    }
    assert(a@ =~= b@);
    true
}

/// The decimal digits of `n`, most significant first, without leading zeros ("0" for zero).
pub open spec fn decimal(n: nat) -> Seq<char>
    decreases n,
{
    if n < 10 {
        seq![digit_char(n)]
    } else {
        decimal(n / 10).push(digit_char(n % 10))
    }
}

/// The ASCII digit for `d < 10`.
pub open spec fn digit_char(d: nat) -> char {
    ((48 + d) as u8) as char
}

/// The ASCII digit character for `d < 10`.
fn digit(d: usize) -> (c: char)
    requires
        d < 10,
    ensures
        c == digit_char(d as nat),
{
    let b: u8 = 48 + (d as u8);
    b as char
}

/// The decimal representation of `n` (what `n.to_string()` gives).
pub fn decimal_string(n: usize) -> (s: String)
    ensures
        s@ == decimal(n as nat),
{
    // `digits` holds, least significant first, the digits already peeled off `n`.
    let mut digits: Vec<char> = Vec::new();
    let mut m: usize = n;
    while m >= 10
        invariant
            decimal(n as nat) == decimal(m as nat) + rev(digits@),
        decreases m,
    {
        let ghost old_digits = digits@;
        let c = digit(m % 10);
        digits.push(c);
        proof {
            assert(decimal(m as nat) == decimal((m / 10) as nat).push(c));
            lemma_rev_push(old_digits, c);
            assert(digits@ =~= old_digits.push(c));
            assert(decimal((m / 10) as nat).push(c) + rev(old_digits) =~= decimal(
                (m / 10) as nat,
            ) + (seq![c] + rev(old_digits)));
        }
        m = m / 10;
    }
    let ghost old_digits = digits@;
    let c = digit(m);
    digits.push(c);
    proof {
        assert(decimal(m as nat) =~= seq![c]);
        lemma_rev_push(old_digits, c);
        assert(digits@ =~= old_digits.push(c));
        assert(decimal(n as nat) == rev(digits@));
    }
    let mut s = String::new();
    let mut i: usize = digits.len();
    while i > 0
        invariant
            i <= digits.len(),
            s@ == rev(digits@.subrange(i as int, digits@.len() as int)),
        decreases i,
    {
        i -= 1;
        push_char(&mut s, digits[i]);
        proof {
            let tail = digits@.subrange(i + 1, digits@.len() as int);
            lemma_rev_cons(digits@[i as int], tail);
            assert(digits@.subrange(i as int, digits@.len() as int) =~= seq![digits@[i as int]]
                + tail);
        }
    }
    proof {
        assert(digits@.subrange(0, digits@.len() as int) =~= digits@);
    }
    s
}

/// The reverse of a sequence.
pub open spec fn rev(s: Seq<char>) -> Seq<char>
    decreases s.len(),
{
    if s.len() == 0 {
        s
    } else {
        seq![s.last()] + rev(s.drop_last())
    }
}

proof fn lemma_rev_push(s: Seq<char>, c: char)
    ensures
        rev(s.push(c)) == seq![c] + rev(s),
{
    assert(s.push(c).drop_last() =~= s);
}

proof fn lemma_rev_cons(c: char, s: Seq<char>)
    ensures
        rev(seq![c] + s) == rev(s).push(c),
    decreases s.len(),
{
    if s.len() == 0 {
        assert(seq![c] + s =~= seq![c]);
        assert(rev(seq![c]) =~= seq![c] + rev(seq![c].drop_last()));
        assert(seq![c].drop_last() =~= Seq::<char>::empty());
    } else {
        assert((seq![c] + s).drop_last() =~= seq![c] + s.drop_last());
        lemma_rev_cons(c, s.drop_last());
        assert(rev(seq![c] + s) == seq![s.last()] + rev(seq![c] + s.drop_last()));
        assert(rev(s) == seq![s.last()] + rev(s.drop_last()));
        assert(seq![s.last()] + rev(s.drop_last()).push(c) =~= (seq![s.last()] + rev(
            s.drop_last(),
        )).push(c));
    }
}

/// `skip_white(s, i)` is the first non-whitespace position at or after `i`.
proof fn lemma_skip_white_is(s: Seq<char>, i: int, a: int)
    requires
        0 <= i <= a <= s.len(),
        forall|k: int| i <= k < a ==> white_space(#[trigger] s[k]),
        a == s.len() || !white_space(s[a]),
    ensures
        skip_white(s, i) == a,
    decreases a - i,
{
    if i < a {
        lemma_skip_white_is(s, i + 1, a);
    }
}

/// `skip_white_back(s, j)` is one past the last non-whitespace position before `j`.
proof fn lemma_skip_white_back_is(s: Seq<char>, j: int, b: int)
    requires
        0 <= b <= j <= s.len(),
        forall|k: int| b <= k < j ==> white_space(#[trigger] s[k]),
        b == 0 || !white_space(s[b - 1]),
    ensures
        skip_white_back(s, j) == b,
    decreases j - b,
{
    if b < j {
        lemma_skip_white_back_is(s, j - 1, b);
    }
}

/// Whitespace around a text does not change what trimming keeps.
pub proof fn lemma_trim_padded(p1: Seq<char>, x: Seq<char>, p2: Seq<char>)
    requires
        forall|k: int| 0 <= k < p1.len() ==> white_space(#[trigger] p1[k]),
        forall|k: int| 0 <= k < p2.len() ==> white_space(#[trigger] p2[k]),
    ensures
        trim_spec(p1 + x + p2) == trim_spec(x),
{
    let w = p1 + x + p2;
    let n1 = p1.len() as int;
    let nx = x.len() as int;
    lemma_skip_white_bounds(x, 0);
    let a = skip_white(x, 0);
    assert forall|k: int| 0 <= k < nx implies w[n1 + k] == x[k] by {}
    if a >= nx {
        assert forall|k: int| 0 <= k < w.len() implies white_space(#[trigger] w[k]) by {
            if k >= n1 && k < n1 + nx {
                assert(w[k] == x[k - n1]);
            } else if k >= n1 + nx {
                assert(w[k] == p2[k - n1 - nx]);
            } else {
                assert(w[k] == p1[k]);
            }
        }
        lemma_skip_white_is(w, 0, w.len() as int);
    } else {
        lemma_skip_white_back_bounds(x, nx);
        lemma_back_after(x, nx, a);
        let b = skip_white_back(x, nx);
        assert forall|k: int| 0 <= k < n1 + a implies white_space(#[trigger] w[k]) by {
            if k >= n1 {
                assert(w[k] == x[k - n1]);
            } else {
                assert(w[k] == p1[k]);
            }
        }
        assert(w[n1 + a] == x[a]);
        lemma_skip_white_is(w, 0, n1 + a);
        assert forall|k: int| n1 + b <= k < w.len() implies white_space(#[trigger] w[k]) by {
            if k < n1 + nx {
                assert(w[k] == x[k - n1]);
            } else {
                assert(w[k] == p2[k - n1 - nx]);
            }
        }
        assert(w[n1 + b - 1] == x[b - 1]);
        lemma_skip_white_back_is(w, w.len() as int, n1 + b);
        assert(w.subrange(n1 + a, n1 + b) =~= x.subrange(a, b));
    }
}

/// ASCII lowercase of a concatenation is the concatenation of the lowercases.
pub proof fn lemma_ascii_lower_concat(a: Seq<char>, b: Seq<char>)
    ensures
        ascii_lower(a + b) == ascii_lower(a) + ascii_lower(b),
        is_ascii_text(a) && is_ascii_text(b) ==> is_ascii_text(a + b),
{
    assert(ascii_lower(a + b) =~= ascii_lower(a) + ascii_lower(b));
    if is_ascii_text(a) && is_ascii_text(b) {
        assert forall|i: int| 0 <= i < (a + b).len() implies (#[trigger] (a + b)[i] as u32) < 128 by {
            if i < a.len() {
                assert((a + b)[i] == a[i]);
            } else {
                assert((a + b)[i] == b[i - a.len()]);
            }
        }
    }
}

} // verus!
