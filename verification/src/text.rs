//! The text operations of the search and the catalogue: trimming, lower
//! case and substring tests.
use vstd::prelude::*;

verus! {

/// The characters with the Unicode `White_Space` property, which `str::trim`
/// removes.
pub open spec fn is_white_space(c: char) -> bool {
    let u = c as u32;
    (0x09 <= u <= 0x0D) || u == 0x20 || u == 0x85 || u == 0xA0 || u == 0x1680 || (0x2000 <= u
        <= 0x200A) || u == 0x2028 || u == 0x2029 || u == 0x202F || u == 0x205F || u == 0x3000
}

/// The number of white-space characters at the start of `s`.
pub open spec fn leading_white_space(s: Seq<char>) -> nat
    decreases s.len(),
{
    if s.len() > 0 && is_white_space(s[0]) {
        1 + leading_white_space(s.drop_first())
    } else {
        0
    }
}

/// The number of white-space characters at the end of `s`.
pub open spec fn trailing_white_space(s: Seq<char>) -> nat
    decreases s.len(),
{
    if s.len() > 0 && is_white_space(s.last()) {
        1 + trailing_white_space(s.drop_last())
    } else {
        0
    }
}

/// `s` without its leading and trailing white space.
pub open spec fn trimmed(s: Seq<char>) -> Seq<char> {
    let t = s.skip(leading_white_space(s) as int);
    t.take(t.len() - trailing_white_space(t))
}

/// `needle` occurs in `hay` as a run of consecutive characters.
pub open spec fn has_substring(hay: Seq<char>, needle: Seq<char>) -> bool {
    exists|i: int|
        0 <= i && i + needle.len() <= hay.len() && #[trigger] hay.subrange(i, i + needle.len())
            == needle
}

/// The lower-case form of `s`, as `str::to_lowercase` computes it from the
/// Unicode case tables.
pub uninterp spec fn lowercase(s: Seq<char>) -> Seq<char>;

/// Whether `c` is white space (see `is_white_space`).
fn white_space(c: char) -> (r: bool)
    ensures
        r == is_white_space(c),
{
    let u = c as u32;
    (0x09 <= u && u <= 0x0D) || u == 0x20 || u == 0x85 || u == 0xA0 || u == 0x1680 || (0x2000
        <= u && u <= 0x200A) || u == 0x2028 || u == 0x2029 || u == 0x202F || u == 0x205F || u
        == 0x3000
}

/// The white space at the start of `s` is the first `i` characters when
/// they are all white space and the next one, if any, is not.
proof fn lemma_leading_white_space(s: Seq<char>, i: int)
    requires
        0 <= i <= s.len(),
        forall|j: int| 0 <= j < i ==> is_white_space(#[trigger] s[j]),
        i < s.len() ==> !is_white_space(s[i]),
    ensures
        leading_white_space(s) == i,
    decreases i,
{
    if i > 0 {
        let t = s.drop_first();
        assert forall|j: int| 0 <= j < i - 1 implies is_white_space(#[trigger] t[j]) by {
            assert(t[j] == s[j + 1]);
        }
        if i - 1 < t.len() {
            assert(t[i - 1] == s[i]);
        }
        lemma_leading_white_space(t, i - 1);
        assert(is_white_space(s[0]));
    }
}

/// The white space at the end of `s` is the last `k` characters when they
/// are all white space and the one before them, if any, is not.
proof fn lemma_trailing_white_space(s: Seq<char>, k: int)
    requires
        0 <= k <= s.len(),
        forall|j: int| s.len() - k <= j < s.len() ==> is_white_space(#[trigger] s[j]),
        k < s.len() ==> !is_white_space(s[s.len() - k - 1]),
    ensures
        trailing_white_space(s) == k,
    decreases k,
{
    if k > 0 {
        let t = s.drop_last();
        assert forall|j: int| t.len() - (k - 1) <= j < t.len() implies is_white_space(
            #[trigger] t[j],
        ) by {
            assert(t[j] == s[j]);
        }
        if k - 1 < t.len() {
            assert(t[t.len() - (k - 1) - 1] == s[s.len() - k - 1]);
        }
        lemma_trailing_white_space(t, k - 1);
        assert(is_white_space(s[s.len() - 1]));
    }
}

/// `s` without leading and trailing white space, as `str::trim` gives it.
pub(crate) fn trim_str<'a>(s: &'a str) -> (r: &'a str)
    ensures
        r@ == trimmed(s@),
{
    let n = s.unicode_len();
    let mut lead: usize = 0;
    while lead < n && white_space(s.get_char(lead))
        invariant
            n == s@.len(),
            lead <= n,
            forall|j: int| 0 <= j < lead ==> is_white_space(#[trigger] s@[j]),
        decreases n - lead,
    {
        lead = lead + 1;
    }
    let mut trail: usize = 0;
    while trail < n - lead && white_space(s.get_char(n - trail - 1))
        invariant
            n == s@.len(),
            lead <= n,
            trail <= n - lead,
            forall|j: int| n - trail <= j < n ==> is_white_space(#[trigger] s@[j]),
        decreases n - lead - trail,
    {
        trail = trail + 1;
    }
    proof {
        if lead < n {
            assert(!is_white_space(s@[lead as int]));
        }
        lemma_leading_white_space(s@, lead as int);
        let t = s@.skip(lead as int);
        assert forall|j: int| t.len() - trail <= j < t.len() implies is_white_space(
            #[trigger] t[j],
        ) by {
            assert(t[j] == s@[j + lead]);
        }
        if trail < t.len() {
            assert(t[t.len() - trail - 1] == s@[n - trail - 1]);
            assert(!is_white_space(s@[n - trail - 1]));
        }
        lemma_trailing_white_space(t, trail as int);
        assert(t.take(t.len() - trail) =~= s@.subrange(lead as int, (n - trail) as int));
    }
    s.substring_char(lead, n - trail)
}

/// The characters of `s`, one by one.
fn chars_of(s: &str) -> (r: Vec<char>)
    ensures
        r@ == s@,
{
    let n = s.unicode_len();
    let mut r: Vec<char> = Vec::new();
    for i in 0..n
        invariant
            n == s@.len(),
            r@ == s@.take(i as int),
    {
        r.push(s.get_char(i));
        assert(r@ =~= s@.take(i + 1));
    }
    assert(s@.take(n as int) =~= s@);
    r
}

/// Whether `needle` occurs in `hay`, as `str::contains` with a string
/// pattern tells it.
pub(crate) fn str_contains(hay: &str, needle: &str) -> (r: bool)
    ensures
        r == has_substring(hay@, needle@),
{
    let h = chars_of(hay);
    let nd = chars_of(needle);
    let n = h.len();
    let m = nd.len();
    if m > n {
        return false;
    }
    let mut i: usize = 0;
    while i <= n - m
        invariant
            h@ == hay@,
            nd@ == needle@,
            n == h@.len(),
            m == nd@.len(),
            m <= n,
            i <= n - m + 1,
            forall|j: int|
                0 <= j < i ==> #[trigger] hay@.subrange(j, j + needle@.len()) != needle@,
        decreases n - m + 1 - i,
    {
        let mut k: usize = 0;
        let mut same = true;
        while k < m
            invariant
                h@ == hay@,
                nd@ == needle@,
                n == h@.len(),
                m == nd@.len(),
                i + m <= n,
                k <= m,
                same == (forall|t: int| 0 <= t < k ==> h@[i + t] == nd@[t]),
            decreases m - k,
        {
            if h[i + k] != nd[k] {
                same = false;
            }
            k = k + 1;
        }
        if same {
            assert(hay@.subrange(i as int, i + m) =~= needle@);
            return true;
        }
        assert(hay@.subrange(i as int, i + m) != needle@) by {
            let t = choose|t: int| 0 <= t < m && h@[i + t] != nd@[t];
            assert(hay@.subrange(i as int, i + m)[t] == h@[i + t]);
        }
        i = i + 1;
    }
    assert forall|j: int| 0 <= j && j + needle@.len() <= hay@.len() implies #[trigger] hay@.subrange(
        j,
        j + needle@.len(),
    ) != needle@ by {
        assert(j < i);
    }
    false
}

/// The lower-case form of `s` (`str::to_lowercase`).
#[verifier::external_body]
pub(crate) fn to_lower(s: &str) -> (r: String)
    ensures
        r@ == lowercase(s@),
{
    s.to_lowercase()
}

// ---------------------------------------------------------------------------
// Order of texts
// ---------------------------------------------------------------------------

/// `a` comes before `b` in the order of `String`: character by character by
/// code point, a proper prefix first.
pub open spec fn text_less(a: Seq<char>, b: Seq<char>) -> bool
    decreases a.len(),
{
    if a.len() == 0 {
        b.len() > 0
    } else if b.len() == 0 {
        false
    } else if (a[0] as int) < (b[0] as int) {
        true
    } else if a[0] == b[0] {
        text_less(a.drop_first(), b.drop_first())
    } else {
        false
    }
}

/// No text comes before itself.
pub proof fn lemma_text_less_irreflexive(a: Seq<char>)
    ensures
        !text_less(a, a),
    decreases a.len(),
{
    if a.len() > 0 {
        lemma_text_less_irreflexive(a.drop_first());
    }
}

/// The order of texts is transitive.
pub proof fn lemma_text_less_transitive(a: Seq<char>, b: Seq<char>, c: Seq<char>)
    requires
        text_less(a, b),
        text_less(b, c),
    ensures
        text_less(a, c),
    decreases a.len(),
{
    if a.len() > 0 && b.len() > 0 && c.len() > 0 && a[0] == b[0] && b[0] == c[0] {
        lemma_text_less_transitive(a.drop_first(), b.drop_first(), c.drop_first());
    }
}

/// Of two different texts one comes before the other.
pub proof fn lemma_text_less_total(a: Seq<char>, b: Seq<char>)
    requires
        a != b,
    ensures
        text_less(a, b) || text_less(b, a),
    decreases a.len(),
{
    if a.len() > 0 && b.len() > 0 && a[0] == b[0] {
        if a.drop_first() == b.drop_first() {
            assert(a =~= seq![a[0]] + a.drop_first());
            assert(b =~= seq![b[0]] + b.drop_first());
        }
        lemma_text_less_total(a.drop_first(), b.drop_first());
    } else if a.len() > 0 && b.len() > 0 {
        assert((a[0] as int) != (b[0] as int));
    } else if a.len() == 0 && b.len() == 0 {
        assert(a =~= b);
    }
}

/// `a` comes before `b` (see `text_less`).
pub fn text_lt(a: &str, b: &str) -> (r: bool)
    ensures
        r == text_less(a@, b@),
{
    let n = a.unicode_len();
    let m = b.unicode_len();
    let mut i: usize = 0;
    assert(a@.skip(0) =~= a@);
    assert(b@.skip(0) =~= b@);
    while i < n && i < m
        invariant
            n == a@.len(),
            m == b@.len(),
            i <= n,
            i <= m,
            text_less(a@, b@) == text_less(a@.skip(i as int), b@.skip(i as int)),
        decreases n - i,
    {
        let x = a.get_char(i);
        let y = b.get_char(i);
        proof {
            assert(a@.skip(i as int)[0] == x);
            assert(b@.skip(i as int)[0] == y);
            assert(a@.skip(i as int).drop_first() =~= a@.skip(i + 1));
            assert(b@.skip(i as int).drop_first() =~= b@.skip(i + 1));
        }
        if (x as u32) < (y as u32) {
            return true;
        }
        if x != y {
            return false;
        }
        i += 1;
    }
    i < m && i == n
}

} // verus!
