//! The listing filter of the viewer: a typed query, folded to upper case,
//! keeps the tickers whose names contain it.

use vstd::prelude::*;
use crate::names::push_char;

verus! {

/// The upper-case form of an ASCII letter; other characters stay.
pub open spec fn upper_ascii(c: char) -> char {
    if 'a' <= c && c <= 'z' {
        ((c as int) - 32) as char
    } else {
        c
    }
}

/// A string with its ASCII letters in upper case.
pub open spec fn upper_chars(s: Seq<char>) -> Seq<char> {
    Seq::new(s.len(), |i: int| upper_ascii(s[i]))
}

/// Whether `needle` occurs in `hay` as a run of consecutive characters.
pub open spec fn occurs_in(needle: Seq<char>, hay: Seq<char>) -> bool {
    exists|i: int|
        0 <= i && i + needle.len() <= hay.len() && #[trigger] hay.subrange(i, i + needle.len())
            == needle
}

/// The query as it is matched: the typed text with ASCII letters in upper case.
pub fn search_key(search: &str) -> (r: String)
    ensures
        r@ == upper_chars(search@),
{
    let n = search.unicode_len();
    let mut r = String::new();
    let mut i: usize = 0;
    while i < n
        invariant
            i <= n,
            n == search@.len(),
            r@ == upper_chars(search@.subrange(0, i as int)),
        decreases n - i,
    {
        let c = search.get_char(i);
        let u = if 'a' <= c && c <= 'z' {
            let b = (c as u8) - 32;
            b as char
        } else {
            c
        };
        assert(u == upper_ascii(c));
        push_char(&mut r, u);
        assert(r@ =~= upper_chars(search@.subrange(0, i + 1)));
        i += 1;
    }
    assert(search@.subrange(0, n as int) =~= search@);
    r
}

/// Whether `key` stands in `name` from position `at` on.
fn matches_at(name: &str, key: &str, at: usize, m: usize, n: usize) -> (r: bool)
    requires
        m == key@.len(),
        n == name@.len(),
        at + m <= n,
    ensures
        r == (name@.subrange(at as int, at + m) == key@),
{
    let mut k: usize = 0;
    while k < m
        invariant
            k <= m,
            m == key@.len(),
            n == name@.len(),
            at + m <= n,
            forall|t: int| 0 <= t < k ==> name@[at + t] == key@[t],
        decreases m - k,
    {
        if name.get_char(at + k) != key.get_char(k) {
            assert(name@.subrange(at as int, at + m)[k as int] != key@[k as int]);
            return false;
        }
        k += 1;
    }
    assert(name@.subrange(at as int, at + m) =~= key@);
    true
}

/// Whether the listing keeps a ticker: the key is empty or occurs in the
/// ticker's name.
pub fn matches_search(name: &str, key: &str) -> (r: bool)
    ensures
        r == (key@.len() == 0 || occurs_in(key@, name@)),
{
    let m = key.unicode_len();
    if m == 0 {
        return true;
    }
    let n = name.unicode_len();
    if m > n {
        return false;
    }
    let mut i: usize = 0;
    while i <= n - m
        invariant
            m == key@.len(),
            n == name@.len(),
            0 < m <= n,
            i <= n - m + 1,
            forall|j: int| 0 <= j < i ==> #[trigger] name@.subrange(j, j + m) != key@,
        decreases n - i,
    {
        if matches_at(name, key, i, m, n) {
            return true;
        }
        i += 1;
    }
    false
}

/// Any run of consecutive characters of a name, wherever it starts and
/// ends (inner runs included), occurs in the name, so a query equal to it
/// keeps the name in the listing.
pub proof fn lemma_every_run_occurs(name: Seq<char>, a: int, b: int)
    requires
        0 <= a <= b <= name.len(),
    ensures
        occurs_in(name.subrange(a, b), name),
{
    let key = name.subrange(a, b);
    assert(name.subrange(a, a + key.len()) == key);
}

/// A key occurs in a name exactly when some window of the name, of the
/// key's length and lying within the name, equals it: any such window
/// is enough.
pub proof fn lemma_occurs_by_window(key: Seq<char>, name: Seq<char>, i: int)
    requires
        0 <= i,
        i + key.len() <= name.len(),
        agrees_from(key, name, i),
    ensures
        occurs_in(key, name),
{
    assert forall|t: int| 0 <= t < key.len() implies name.subrange(i, i + key.len())[t] == key[t] by {
        assert(name[i + t] == key[t]);
    }
    assert(name.subrange(i, i + key.len()) =~= key);
}

/// A key longer than a name never occurs in it.
pub proof fn lemma_long_key_never_occurs(key: Seq<char>, name: Seq<char>)
    requires
        key.len() > name.len(),
    ensures
        !occurs_in(key, name),
{
}

/// Whether each character of `key` equals the character of `name` that
/// stands `i` places further on.
pub open spec fn agrees_from(key: Seq<char>, name: Seq<char>, i: int) -> bool {
    forall|t: int| 0 <= t < key.len() ==> #[trigger] name[i + t] == key[t]
}

/// A key that occurs in a name is no longer than it and matches it
/// character by character at some position.
pub proof fn lemma_occurrence_has_window(key: Seq<char>, name: Seq<char>)
    requires
        occurs_in(key, name),
    ensures
        key.len() <= name.len(),
        exists|i: int| 0 <= i && i + key.len() <= name.len() && #[trigger] agrees_from(key, name, i),
{
    let i = choose|i: int|
        0 <= i && i + key.len() <= name.len() && #[trigger] name.subrange(i, i + key.len()) == key;
    assert forall|t: int| 0 <= t < key.len() implies #[trigger] name[i + t] == key[t] by {
        assert(name.subrange(i, i + key.len())[t] == name[i + t]);
    }
    assert(agrees_from(key, name, i));
}

/// Folding a query to upper case keeps its length, turns each ASCII
/// lower-case letter into the matching capital (32 code points lower),
/// leaves every other character as it is, leaves no ASCII lower-case
/// letter behind, and changes nothing when done twice.
pub proof fn lemma_upper_chars_folds(s: Seq<char>)
    ensures
        upper_chars(s).len() == s.len(),
        forall|k: int|
            0 <= k < s.len() && 'a' <= s[k] && s[k] <= 'z' ==> 'A' <= #[trigger] upper_chars(s)[k]
                && upper_chars(s)[k] <= 'Z' && upper_chars(s)[k] as int + 32 == s[k] as int,
        forall|k: int|
            0 <= k < s.len() && !('a' <= s[k] && s[k] <= 'z') ==> #[trigger] upper_chars(s)[k]
                == s[k],
        forall|k: int|
            0 <= k < s.len() ==> !('a' <= #[trigger] upper_chars(s)[k] && upper_chars(s)[k] <= 'z'),
        upper_chars(upper_chars(s)) == upper_chars(s),
{
    assert(upper_chars(upper_chars(s)) =~= upper_chars(s));
}

} // verus!
