//! Character-level text helpers: case folding, substring search, lexicographic
//! comparison and decimal rendering.
use vstd::prelude::*;

verus! {

/// The lowercase form of a text, as `str::to_lowercase` computes it.
pub uninterp spec fn lower_of(s: Seq<char>) -> Seq<char>;

/// Relies on `str::to_lowercase`: the result depends on the characters alone.
#[verifier::external_body]
fn lowercase(s: &str) -> (r: String)
    ensures
        r@ == lower_of(s@),
{
    s.to_lowercase()
}

/// Decimal digit character for `d < 10`.
pub open spec fn digit_char(d: nat) -> char {
    seq!['0', '1', '2', '3', '4', '5', '6', '7', '8', '9'][d as int]
}

/// Decimal rendering of a natural number, most significant digit first, no padding.
pub open spec fn decimal(n: nat) -> Seq<char>
    decreases n,
{
    if n < 10 {
        seq![digit_char(n)]
    } else {
        decimal(n / 10).push(digit_char(n % 10))
    }
}

/// Relies on `u32`'s `Display` (through `to_string`): plain decimal digits, no sign or padding.
#[verifier::external_body]
fn decimal_text(n: u32) -> (r: String)
    ensures
        r@ == decimal(n as nat),
{
    n.to_string()
}

/// `needle` occurs in `hay` as a contiguous run of characters.
pub open spec fn is_substring(needle: Seq<char>, hay: Seq<char>) -> bool {
    exists|i: int|
        0 <= i && i + needle.len() <= hay.len() && #[trigger] hay.subrange(i, i + needle.len())
            == needle
}

/// Lexicographic order of two texts by code point: negative, zero or positive.
pub open spec fn lex_cmp(a: Seq<char>, b: Seq<char>) -> int
    decreases a.len(),
{
    if a.len() == 0 {
        if b.len() == 0 {
            0
        } else {
            -1
        }
    } else if b.len() == 0 {
        1
    } else if (a[0] as u32) < (b[0] as u32) {
        -1
    } else if (a[0] as u32) > (b[0] as u32) {
        1
    } else {
        lex_cmp(a.drop_first(), b.drop_first())
    }
}

/// Swapping the arguments of `lex_cmp` negates it.
pub proof fn lemma_lex_cmp_antisymmetric(a: Seq<char>, b: Seq<char>)
    ensures
        lex_cmp(a, b) == -lex_cmp(b, a),
        -1 <= lex_cmp(a, b) <= 1,
    decreases a.len(),
{
    if a.len() > 0 && b.len() > 0 && (a[0] as u32) == (b[0] as u32) {
        lemma_lex_cmp_antisymmetric(a.drop_first(), b.drop_first());
    }
}

/// `lex_cmp` is transitive on strictly smaller pairs.
pub proof fn lemma_lex_cmp_transitive(a: Seq<char>, b: Seq<char>, c: Seq<char>)
    requires
        lex_cmp(a, b) < 0,
        lex_cmp(b, c) < 0,
    ensures
        lex_cmp(a, c) < 0,
    decreases a.len(),
{
    if a.len() > 0 && b.len() > 0 && c.len() > 0 && (a[0] as u32) == (b[0] as u32) && (b[0] as u32)
        == (c[0] as u32) {
        lemma_lex_cmp_transitive(a.drop_first(), b.drop_first(), c.drop_first());
    }
}

/// The characters of a text, in order.
pub fn chars_of(s: &str) -> (r: Vec<char>)
    ensures
        r@ == s@,
{
    let n = s.unicode_len();
    let mut r: Vec<char> = Vec::new();
    let mut i: usize = 0;
    while i < n
        invariant
            n == s@.len(),
            i <= n,
            r@ == s@.take(i as int),
        decreases n - i,
    {
        r.push(s.get_char(i));
        i = i + 1;
        assert(r@ =~= s@.take(i as int));
    }
    assert(r@ =~= s@);
    r
}

/// Whether `needle` occurs in `hay`.
pub fn contains_chars(hay: &Vec<char>, needle: &Vec<char>) -> (r: bool)
    ensures
        r == is_substring(needle@, hay@),
{
    let n = hay.len();
    let m = needle.len();
    if m > n {
        return false;
    }
    if m == 0 {
        assert(hay@.subrange(0, 0 + needle@.len() as int) =~= needle@);
        return true;
    }
    let mut i: usize = 0;
    while i <= n - m
        invariant
            n == hay@.len(),
            m == needle@.len(),
            1 <= m <= n,
            i <= n - m + 1,
            forall|k: int| 0 <= k < i ==> #[trigger] hay@.subrange(k, k + m) != needle@,
        decreases n - m + 1 - i,
    {
        let mut j: usize = 0;
        let mut same = true;
        assert(hay@.subrange(i as int, i as int) =~= needle@.take(0));
        while j < m
            invariant
                n == hay@.len(),
                m == needle@.len(),
                i + m <= n,
                j <= m,
                same == (hay@.subrange(i as int, i + j) == needle@.take(j as int)),
            decreases m - j,
        {
            if hay[i + j] != needle[j] {
                assert(hay@.subrange(i as int, i + j + 1)[j as int] != needle@.take(j + 1)[j as int]);
                same = false;
            } else if same {
                assert(hay@.subrange(i as int, i + j + 1) =~= needle@.take(j + 1));
            } else {
                assert(hay@.subrange(i as int, i + j) =~= hay@.subrange(i as int, i + j + 1).take(
                    j as int,
                ));
                assert(needle@.take(j as int) =~= needle@.take(j + 1).take(j as int));
            }
            j = j + 1;
        }
        assert(needle@.take(m as int) =~= needle@);
        if same {
            return true;
        }
        i = i + 1;
    }
    proof {
        if is_substring(needle@, hay@) {
            let k = choose|k: int|
                0 <= k && k + needle@.len() <= hay@.len() && #[trigger] hay@.subrange(
                    k,
                    k + needle@.len(),
                ) == needle@;
            assert(hay@.subrange(k, k + m) == needle@);
        }
    }
    false
}

/// Whether an already case-folded name contains an already case-folded filter.
pub fn matches_folded(name_folded: &str, filter_folded: &str) -> (r: bool)
    ensures
        r == is_substring(filter_folded@, name_folded@),
{
    let hay = chars_of(name_folded);
    let needle = chars_of(filter_folded);
    contains_chars(&hay, &needle)
}

/// The filter rule: an empty filter passes every name, any other passes the names
/// that contain it once both are lowercased.
pub open spec fn passes_filter(name: Seq<char>, filter: Seq<char>) -> bool {
    filter.len() == 0 || is_substring(lower_of(filter), lower_of(name))
}

/// Lowercases a filter once, for repeated use with `name_passes_folded`.
pub fn fold_filter(filter: &str) -> (r: String)
    ensures
        r@ == lower_of(filter@),
{
    lowercase(filter)
}

/// Whether `name` passes `filter`, given the filter already lowercased.
pub fn name_passes_folded(name: &str, filter: &str, filter_folded: &str) -> (r: bool)
    requires
        filter_folded@ == lower_of(filter@),
    ensures
        r == passes_filter(name@, filter@),
{
    if filter.unicode_len() == 0 {
        return true;
    }
    let name_folded = lowercase(name);
    matches_folded(name_folded.as_str(), filter_folded)
}

/// Whether `name` passes `filter` (case-insensitive substring; empty filter passes all).
pub fn name_passes(name: &str, filter: &str) -> (r: bool)
    ensures
        r == passes_filter(name@, filter@),
{
    let folded = lowercase(filter);
    name_passes_folded(name, filter, folded.as_str())
}

/// Lexicographic comparison by code point: -1, 0 or 1.
pub fn compare_chars(a: &Vec<char>, b: &Vec<char>) -> (r: i8)
    ensures
        r as int == lex_cmp(a@, b@),
{
    let mut i: usize = 0;
    assert(a@.skip(0) =~= a@);
    assert(b@.skip(0) =~= b@);
    while i < a.len() && i < b.len()
        invariant
            i <= a@.len(),
            i <= b@.len(),
            lex_cmp(a@, b@) == lex_cmp(a@.skip(i as int), b@.skip(i as int)),
        decreases a@.len() - i,
    {
        let ca = a[i] as u32;
        let cb = b[i] as u32;
        assert(a@.skip(i as int)[0] == a@[i as int]);
        assert(b@.skip(i as int)[0] == b@[i as int]);
        if ca < cb {
            return -1;
        }
        if ca > cb {
            return 1;
        }
        assert(a@.skip(i as int).drop_first() =~= a@.skip(i + 1));
        assert(b@.skip(i as int).drop_first() =~= b@.skip(i + 1));
        i = i + 1;
    }
    if i < b.len() {
        -1
    } else if i < a.len() {
        1
    } else {
        0
    }
}

/// The label given to a process whose name is empty: `PID: ` and the pid in decimal.
pub open spec fn pid_label(pid: u32) -> Seq<char> {
    seq!['P', 'I', 'D', ':', ' '] + decimal(pid as nat)
}

/// Builds the label `PID: <pid>`.
pub fn make_pid_label(pid: u32) -> (r: String)
    ensures
        r@ == pid_label(pid),
{
    let digits = decimal_text(pid);
    let prefix = String::from_str("PID: ");
    proof {
        reveal_strlit("PID: ");
    }
    assert(prefix@ =~= seq!['P', 'I', 'D', ':', ' ']);
    prefix.concat(digits.as_str())
}

} // verus!
