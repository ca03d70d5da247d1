//! Character-level helpers on file names and paths.

use vstd::prelude::*;

verus! {

/// `needle` occurs in `hay` starting at `start`.
pub open spec fn occurs_at(hay: Seq<char>, needle: Seq<char>, start: int) -> bool {
    0 <= start && start + needle.len() <= hay.len() && hay.subrange(start, start + needle.len())
        =~= needle
}

/// `needle` occurs somewhere in `hay`.
pub open spec fn has_infix(hay: Seq<char>, needle: Seq<char>) -> bool {
    exists|i: int| occurs_at(hay, needle, i)
}

/// Some word of `words` occurs in `hay`.
pub open spec fn has_any_infix(hay: Seq<char>, words: Seq<Seq<char>>) -> bool {
    exists|k: int| 0 <= k < words.len() && has_infix(hay, #[trigger] words[k])
}

/// The characters of `s`, one by one.
pub fn chars_of(s: &str) -> (r: Vec<char>)
    ensures
        r@ == s@,
{
    let n = s.unicode_len();
    let mut r: Vec<char> = Vec::new();
    let mut i: usize = 0;
    while i < n
        invariant
            n == s@.len(),
            i <= n,
            r@ == s@.subrange(0, i as int),
        decreases n - i,
    {
        r.push(s.get_char(i));
        i += 1;
        assert(r@ =~= s@.subrange(0, i as int));
    }
    assert(r@ =~= s@);
    r
}

fn occurs_at_exec(hay: &Vec<char>, needle: &Vec<char>, start: usize) -> (r: bool)
    requires
        start + needle@.len() <= hay@.len(),
    ensures
        r == occurs_at(hay@, needle@, start as int),
{
    let n = hay.len();
    let mut j: usize = 0;
    while j < needle.len()
        invariant
            n == hay@.len(),
            start + needle@.len() <= hay@.len(),
            j <= needle@.len(),
            forall|t: int| 0 <= t < j ==> hay@[start + t] == needle@[t],
        decreases needle@.len() - j,
    {
        assert(start + j < hay@.len());
        if hay[start + j] != needle[j] {
            assert(hay@.subrange(start as int, start + needle@.len())[j as int] != needle@[j as int]);
            return false;
        }
        j += 1;
    }
    assert(hay@.subrange(start as int, start + needle@.len()) =~= needle@);
    true
}

/// Whether `needle` occurs in `hay`.
pub fn contains_chars(hay: &Vec<char>, needle: &Vec<char>) -> (r: bool)
    ensures
        r == has_infix(hay@, needle@),
{
    if needle.len() > hay.len() {
        assert forall|i: int| !occurs_at(hay@, needle@, i) by {}
        return false;
    }
    let mut i: usize = 0;
    while i <= hay.len() - needle.len()
        invariant
            needle@.len() <= hay@.len(),
            i <= hay@.len() - needle@.len() + 1,
            forall|k: int| 0 <= k < i ==> !occurs_at(hay@, needle@, k),
        decreases hay@.len() - needle@.len() + 1 - i,
    {
        if occurs_at_exec(hay, needle, i) {
            return true;
        }
        i += 1;
    }
    assert forall|k: int| !occurs_at(hay@, needle@, k) by {
        if 0 <= k < i {
        }
    }
    false
}

/// Whether `needle` occurs in `hay`.
pub fn contains_str(hay: &Vec<char>, needle: &str) -> (r: bool)
    ensures
        r == has_infix(hay@, needle@),
{
    let n = chars_of(needle);
    contains_chars(hay, &n)
}

/// Whether some word of `words` occurs in `hay`.
pub fn contains_any(hay: &Vec<char>, words: &[&str]) -> (r: bool)
    ensures
        r == has_any_infix(hay@, words@.map_values(|w: &str| w@)),
{
    let ghost ws = words@.map_values(|w: &str| w@);
    let mut k: usize = 0;
    while k < words.len()
        invariant
            ws == words@.map_values(|w: &str| w@),
            k <= words@.len(),
            forall|t: int| 0 <= t < k ==> !has_infix(hay@, #[trigger] ws[t]),
        decreases words@.len() - k,
    {
        if contains_str(hay, words[k]) {
            assert(has_infix(hay@, ws[k as int]));
            return true;
        }
        k += 1;
    }
    false
}


/// `p` is the last position of `c` in `s`.
pub open spec fn is_last_at(s: Seq<char>, c: char, p: int) -> bool {
    0 <= p < s.len() && s[p] == c && forall|q: int| p < q < s.len() ==> s[q] != c
}

/// The last position of `c` in `s`, or -1 where `c` does not occur.
pub open spec fn last_index(s: Seq<char>, c: char) -> int {
    if exists|p: int| is_last_at(s, c, p) {
        choose|p: int| is_last_at(s, c, p)
    } else {
        -1
    }
}

proof fn lemma_last_at_unique(s: Seq<char>, c: char, p: int)
    requires
        is_last_at(s, c, p),
    ensures
        last_index(s, c) == p,
{
    let q = choose|q: int| is_last_at(s, c, q);
    assert(is_last_at(s, c, q));
    if q < p {
        assert(s[p] != c);
    } else if p < q {
        assert(s[q] != c);
    }
}

/// The last position of `c` in `s`.
pub fn rfind(s: &str, c: char) -> (r: Option<usize>)
    ensures
        match r {
            Some(p) => last_index(s@, c) == p as int,
            None => last_index(s@, c) == -1,
        },
{
    let mut i: usize = s.unicode_len();
    while i > 0
        invariant
            i <= s@.len(),
            forall|q: int| i <= q < s@.len() ==> s@[q] != c,
        decreases i,
    {
        if s.get_char(i - 1) == c {
            proof {
                lemma_last_at_unique(s@, c, i - 1);
            }
            return Some(i - 1);
        }
        i -= 1;
    }
    assert(!exists|p: int| is_last_at(s@, c, p));
    None
}

/// The last component of a `/`-separated path.
pub open spec fn file_name_of(path: Seq<char>) -> Seq<char> {
    path.subrange(last_index(path, '/') + 1, path.len() as int)
}

/// The position of the last dot of a file name, or -1.
pub open spec fn ext_dot(name: Seq<char>) -> int {
    last_index(name, '.')
}

/// The extension of a file name: what follows its last dot, if that dot is
/// not the leading one.
pub open spec fn extension_of(name: Seq<char>) -> Option<Seq<char>> {
    if ext_dot(name) <= 0 {
        None
    } else {
        Some(name.subrange(ext_dot(name) + 1, name.len() as int))
    }
}

/// The file name without its extension and the dot before it.
pub open spec fn stem_of(name: Seq<char>) -> Seq<char> {
    if ext_dot(name) <= 0 {
        name
    } else {
        name.subrange(0, ext_dot(name))
    }
}

/// The last component of a `/`-separated path.
pub fn file_name(path: &str) -> (r: &str)
    ensures
        r@ == file_name_of(path@),
{
    let n = path.unicode_len();
    match rfind(path, '/') {
        Some(p) => path.substring_char(p + 1, n),
        None => path.substring_char(0, n),
    }
}

/// The extension of a file name, if it has one.
pub fn extension(name: &str) -> (r: Option<&str>)
    ensures
        match r {
            Some(e) => extension_of(name@) == Some(e@),
            None => extension_of(name@).is_none(),
        },
{
    let n = name.unicode_len();
    match rfind(name, '.') {
        Some(p) => {
            if p == 0 {
                None
            } else {
                Some(name.substring_char(p + 1, n))
            }
        },
        None => None,
    }
}

/// The file name without its extension.
pub fn stem(name: &str) -> (r: &str)
    ensures
        r@ == stem_of(name@),
{
    let n = name.unicode_len();
    match rfind(name, '.') {
        Some(p) => {
            if p == 0 {
                name.substring_char(0, n)
            } else {
                name.substring_char(0, p)
            }
        },
        None => name.substring_char(0, n),
    }
}

/// What `str::to_lowercase` makes of a string.
pub uninterp spec fn lower_of(s: Seq<char>) -> Seq<char>;

/// Relies on `str::to_lowercase`: the result depends on the characters of
/// the argument alone.
#[verifier::external_body]
pub(crate) fn lowercase(s: &str) -> (r: String)
    ensures
        r@ == lower_of(s@),
{
    s.to_lowercase()
}

/// The decimal digit for `d`.
pub open spec fn digit_char(d: nat) -> char {
    "0123456789"@[d as int]
}

/// The decimal notation of `n`, without leading zeros.
pub open spec fn decimal(n: nat) -> Seq<char>
    decreases n,
{
    if n < 10 {
        seq![digit_char(n)]
    } else {
        decimal(n / 10).push(digit_char(n % 10))
    }
}

/// A decimal notation is never empty.
pub proof fn lemma_decimal_len(n: nat)
    ensures
        decimal(n).len() >= 1,
        n >= 10 ==> decimal(n).len() >= 2,
    decreases n,
{
    if n >= 10 {
        lemma_decimal_len(n / 10);
    }
}

/// Distinct numbers have distinct decimal notations.
pub proof fn lemma_decimal_injective(a: nat, b: nat)
    requires
        decimal(a) == decimal(b),
    ensures
        a == b,
    decreases a,
{
    reveal_strlit("0123456789");
    lemma_decimal_len(a);
    lemma_decimal_len(b);
    if a < 10 && b < 10 {
        assert(decimal(a)[0] == digit_char(a));
        assert(decimal(b)[0] == digit_char(b));
    } else if a >= 10 && b >= 10 {
        let da = decimal(a);
        let db = decimal(b);
        assert(da.drop_last() =~= decimal(a / 10));
        assert(db.drop_last() =~= decimal(b / 10));
        lemma_decimal_injective(a / 10, b / 10);
        assert(da.last() == digit_char(a % 10));
        assert(db.last() == digit_char(b % 10));
    } else {
        lemma_decimal_len(a / 10);
        lemma_decimal_len(b / 10);
    }
}

/// The decimal notation of a signed number.
pub open spec fn signed_decimal(n: int) -> Seq<char> {
    if n < 0 {
        seq!['-'] + decimal((-n) as nat)
    } else {
        decimal(n as nat)
    }
}

fn digit_str(d: u64) -> (r: &'static str)
    requires
        d < 10,
    ensures
        r@ == seq![digit_char(d as nat)],
{
    let digits = "0123456789";
    proof {
        reveal_strlit("0123456789");
    }
    let r = digits.substring_char(d as usize, d as usize + 1);
    assert(r@ =~= seq![digit_char(d as nat)]);
    r
}

/// The decimal notation of `n`.
pub fn decimal_text(n: u64) -> (r: String)
    ensures
        r@ == decimal(n as nat),
    decreases n,
{
    if n < 10 {
        String::from_str(digit_str(n))
    } else {
        let head = decimal_text(n / 10);
        let r = head.concat(digit_str(n % 10));
        assert(r@ =~= decimal(n as nat));
        r
    }
}

/// The decimal notation of a signed number.
pub fn signed_decimal_text(n: i64) -> (r: String)
    ensures
        r@ == signed_decimal(n as int),
{
    if n < 0 {
        let magnitude: u64 = if n == i64::MIN {
            9_223_372_036_854_775_808u64
        } else {
            (-n) as u64
        };
        let minus = "-";
        proof {
            reveal_strlit("-");
        }
        let r = String::from_str(minus).concat(decimal_text(magnitude).as_str());
        assert(r@ =~= signed_decimal(n as int));
        r
    } else {
        decimal_text(n as u64)
    }
}

} // verus!
