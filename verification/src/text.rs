//! Small verified helpers on strings and characters.

use vstd::prelude::*;
use vstd::string::*;

verus! {

/// Equality of two string slices: true exactly when they hold the same characters.
pub(crate) fn str_eq(a: &str, b: &str) -> (r: bool)
    ensures
        r == (a@ == b@),
{
    let n = a.unicode_len();
    if n != b.unicode_len() {
        return false;
    }
    let mut i: usize = 0;
    while i < n
        invariant
            n == a@.len(),
            n == b@.len(),
            i <= n,
            forall|j: int| 0 <= j < i ==> a@[j] == b@[j],
        decreases n - i,
    {
        if a.get_char(i) != b.get_char(i) {
            return false;
        }
        i = i + 1;
    }
    assert(a@ =~= b@);
    true
}

/// `std`'s `String::from_iter` over a slice of characters: the string holding exactly them.
#[verifier::external_body]
pub(crate) fn string_from_chars(v: &[char]) -> (s: String)
    ensures
        s@ == v@,
{
    v.iter().collect()
}

/// The characters of `s`, in order.
pub fn chars_of(s: &str) -> (v: Vec<char>)
    ensures
        v@ == s@,
{
    let n = s.unicode_len();
    let mut v: Vec<char> = Vec::new();
    let mut i: usize = 0;
    while i < n
        invariant
            n == s@.len(),
            i <= n,
            v@ == s@.take(i as int),
        decreases n - i,
    {
        let c = s.get_char(i);
        v.push(c);
        proof {
            assert(s@.take(i as int).push(c) =~= s@.take(i + 1));
        }
        i = i + 1;
    }
    proof {
        assert(s@.take(n as int) =~= s@);
    }
    v
}

/// Whether `s` ends with `suffix`.
pub open spec fn ends_with(s: Seq<char>, suffix: Seq<char>) -> bool {
    suffix.len() <= s.len() && s.skip(s.len() - suffix.len()) == suffix
}

/// Whether `p` occurs in `s` starting at position `i`.
pub open spec fn occurs_at(s: Seq<char>, p: Seq<char>, i: int) -> bool {
    0 <= i && i + p.len() <= s.len() && s.subrange(i, i + p.len()) == p
}

/// Whether `p` occurs somewhere in `s`.
pub open spec fn contains_text(s: Seq<char>, p: Seq<char>) -> bool {
    exists|i: int| occurs_at(s, p, i)
}

/// Whether `p` occurs in `s` at position `i`, where it fits.
fn matches_at(s: &Vec<char>, p: &Vec<char>, i: usize) -> (r: bool)
    requires
        i + p@.len() <= s@.len(),
    ensures
        r == occurs_at(s@, p@, i as int),
{
    let n = s.len();
    let mut j: usize = 0;
    while j < p.len()
        invariant
            n == s@.len(),
            j <= p@.len(),
            i + p@.len() <= s@.len(),
            forall|k: int| 0 <= k < j ==> s@[i + k] == p@[k],
        decreases p@.len() - j,
    {
        if s[i + j] != p[j] {
            assert(s@.subrange(i as int, i + p@.len())[j as int] != p@[j as int]);
            return false;
        }
        j = j + 1;
    }
    assert(s@.subrange(i as int, i + p@.len()) =~= p@);
    true
}

/// Whether `s` ends with `suffix`.
pub fn str_ends_with(s: &str, suffix: &str) -> (r: bool)
    ensures
        r == ends_with(s@, suffix@),
{
    let sv = chars_of(s);
    let pv = chars_of(suffix);
    if pv.len() > sv.len() {
        return false;
    }
    let start = sv.len() - pv.len();
    let r = matches_at(&sv, &pv, start);
    assert(sv@.subrange(start as int, start + pv@.len()) =~= sv@.skip(start as int));
    r
}

/// Whether `pat` occurs somewhere in `s`.
pub fn str_contains(s: &str, pat: &str) -> (r: bool)
    ensures
        r == contains_text(s@, pat@),
{
    let sv = chars_of(s);
    let pv = chars_of(pat);
    if pv.len() > sv.len() {
        assert forall|k: int| !occurs_at(s@, pat@, k) by {}
        return false;
    }
    let last = sv.len() - pv.len();
    let mut i: usize = 0;
    loop
        invariant
            sv@ == s@,
            pv@ == pat@,
            last == sv@.len() - pv@.len(),
            i <= last,
            forall|k: int| 0 <= k < i ==> !occurs_at(s@, pat@, k),
        decreases last - i,
    {
        if matches_at(&sv, &pv, i) {
            assert(occurs_at(s@, pat@, i as int));
            return true;
        }
        if i == last {
            assert forall|k: int| !occurs_at(s@, pat@, k) by {
                if 0 <= k < i {
                }
            }
            return false;
        }
        i = i + 1;
    }
}

/// A string holding exactly the characters of `s`.
pub fn to_owned_string(s: &str) -> (r: String)
    ensures
        r@ == s@,
{
    s.to_owned()
}


/// Whether `c` has the Unicode `White_Space` property, as `char::is_whitespace` tests.
pub open spec fn is_whitespace(c: char) -> bool {
    let u = c as u32;
    ||| 0x09 <= u <= 0x0d
    ||| u == 0x20
    ||| u == 0x85
    ||| u == 0xa0
    ||| u == 0x1680
    ||| 0x2000 <= u <= 0x200a
    ||| u == 0x2028
    ||| u == 0x2029
    ||| u == 0x202f
    ||| u == 0x205f
    ||| u == 0x3000
}

/// Whether `c` has the Unicode `White_Space` property.
pub fn char_is_whitespace(c: char) -> (r: bool)
    ensures
        r == is_whitespace(c),
{
    let u = c as u32;
    (0x09 <= u && u <= 0x0d) || u == 0x20 || u == 0x85 || u == 0xa0 || u == 0x1680 || (0x2000
        <= u && u <= 0x200a) || u == 0x2028 || u == 0x2029 || u == 0x202f || u == 0x205f || u
        == 0x3000
}

/// Splits `s` into words separated by whitespace, given the word being read (`cur`) and the
/// words already complete (`acc`).
pub open spec fn words_from(s: Seq<char>, cur: Seq<char>, acc: Seq<Seq<char>>) -> Seq<Seq<char>>
    decreases s.len(),
{
    if s.len() == 0 {
        if cur.len() > 0 {
            acc.push(cur)
        } else {
            acc
        }
    } else if is_whitespace(s[0]) {
        words_from(s.drop_first(), Seq::empty(), if cur.len() > 0 { acc.push(cur) } else { acc })
    } else {
        words_from(s.drop_first(), cur.push(s[0]), acc)
    }
}

/// The whitespace-separated words of `s`, as `str::split_whitespace` yields them.
pub open spec fn words(s: Seq<char>) -> Seq<Seq<char>> {
    words_from(s, Seq::empty(), Seq::empty())
}

/// The words joined with single spaces, as `[&str]::join(" ")` builds them.
pub open spec fn join_words(ws: Seq<Seq<char>>) -> Seq<char>
    decreases ws.len(),
{
    if ws.len() == 0 {
        Seq::empty()
    } else if ws.len() == 1 {
        ws[0]
    } else {
        join_words(ws.drop_last()) + seq![' '] + ws.last()
    }
}

/// The whitespace-separated words of `s`.
pub fn split_words(s: &str) -> (r: Vec<Vec<char>>)
    ensures
        r@.map_values(|w: Vec<char>| w@) == words(s@),
{
    let v = chars_of(s);
    let mut acc: Vec<Vec<char>> = Vec::new();
    let mut cur: Vec<char> = Vec::new();
    let mut i: usize = 0;
    proof {
        assert(v@.skip(0) =~= s@);
        assert(acc@.map_values(|w: Vec<char>| w@) =~= Seq::<Seq<char>>::empty());
        assert(cur@ =~= Seq::<char>::empty());
    }
    while i < v.len()
        invariant
            v@ == s@,
            i <= v@.len(),
            words(s@) == words_from(v@.skip(i as int), cur@, acc@.map_values(|w: Vec<char>| w@)),
        decreases v@.len() - i,
    {
        let ghost rest = v@.skip(i as int);
        proof {
            assert(rest[0] == v@[i as int]);
            assert(rest.drop_first() =~= v@.skip(i + 1));
        }
        let c = v[i];
        let ghost a_before = acc@.map_values(|w: Vec<char>| w@);
        let ghost c_before = cur@;
        proof {
            assert(words_from(rest, c_before, a_before) == if is_whitespace(rest[0]) {
                words_from(rest.drop_first(), Seq::empty(), if c_before.len() > 0 { a_before.push(c_before) } else { a_before })
            } else {
                words_from(rest.drop_first(), c_before.push(rest[0]), a_before)
            });
        }
        if char_is_whitespace(c) {
            if cur.len() > 0 {
                let ghost a0 = acc@.map_values(|w: Vec<char>| w@);
                let ghost c0 = cur@;
                let w = cur;
                acc.push(w);
                cur = Vec::new();
                proof {
                    assert(acc@.map_values(|w: Vec<char>| w@) =~= a0.push(c0));
                    assert(cur@ =~= Seq::<char>::empty());
                }
            } else {
                proof {
                    assert(cur@ =~= Seq::<char>::empty());
                }
            }
        } else {
            cur.push(c);
        }
        i = i + 1;
    }
    proof {
        assert(v@.skip(i as int) =~= Seq::<char>::empty());
    }
    if cur.len() > 0 {
        let ghost a0 = acc@.map_values(|w: Vec<char>| w@);
        let ghost c0 = cur@;
        acc.push(cur);
        proof {
            assert(acc@.map_values(|w: Vec<char>| w@) =~= a0.push(c0));
        }
    }
    acc
}

/// `ws[from..]` joined with single spaces.
pub fn join_words_from(ws: &Vec<Vec<char>>, from: usize) -> (r: Vec<char>)
    requires
        from <= ws@.len(),
    ensures
        r@ == join_words(ws@.map_values(|w: Vec<char>| w@).skip(from as int)),
{
    let ghost all = ws@.map_values(|w: Vec<char>| w@).skip(from as int);
    let mut r: Vec<char> = Vec::new();
    let mut i: usize = from;
    while i < ws.len()
        invariant
            from <= i <= ws@.len(),
            all == ws@.map_values(|w: Vec<char>| w@).skip(from as int),
            r@ == join_words(all.take(i - from)),
        decreases ws@.len() - i,
    {
        let ghost t = all.take(i + 1 - from);
        proof {
            assert(t.drop_last() =~= all.take(i - from));
            assert(t.last() == ws@[i as int]@);
        }
        if i > from {
            r.push(' ');
        }
        let w = &ws[i];
        let mut j: usize = 0;
        let ghost r0 = r@;
        while j < w.len()
            invariant
                j <= w@.len(),
                r@ == r0 + w@.take(j as int),
            decreases w@.len() - j,
        {
            r.push(w[j]);
            proof {
                assert(r@ =~= r0 + w@.take(j + 1));
            }
            j = j + 1;
        }
        proof {
            assert(w@.take(j as int) =~= w@);
            if i == from {
                assert(t.len() == 1);
                assert(r@ =~= t[0]);
            } else {
                assert(r@ =~= join_words(t.drop_last()) + seq![' '] + t.last());
            }
        }
        i = i + 1;
    }
    proof {
        assert(all.take(ws@.len() - from) =~= all);
    }
    r
}

} // verus!
