//! Text operations on character sequences: prefix tests, joining and
//! placeholder substitution.

use vstd::prelude::*;

verus! {

/// The view of each string of `items`, in order.
pub open spec fn views(items: Seq<String>) -> Seq<Seq<char>> {
    items.map_values(|s: String| s@)
}

/// `pattern` stands in `s` at position `i`.
pub open spec fn occurs_at(s: Seq<char>, pattern: Seq<char>, i: int) -> bool {
    &&& 0 <= i
    &&& i + pattern.len() <= s.len()
    &&& s.subrange(i, i + pattern.len()) == pattern
}

/// What becomes of `s` from position `i` on when every occurrence of
/// `pattern` is replaced by `value`, scanning from the left and never
/// looking into a replacement. An empty pattern occurs nowhere.
pub open spec fn replace_from(s: Seq<char>, pattern: Seq<char>, value: Seq<char>, i: int) -> Seq<char>
    decreases s.len() - i,
{
    if i < 0 || i >= s.len() {
        Seq::empty()
    } else if pattern.len() > 0 && occurs_at(s, pattern, i) {
        value + replace_from(s, pattern, value, i + pattern.len())
    } else {
        seq![s[i]] + replace_from(s, pattern, value, i + 1)
    }
}

/// `s` with every occurrence of `pattern` replaced by `value`.
pub open spec fn replace_all(s: Seq<char>, pattern: Seq<char>, value: Seq<char>) -> Seq<char> {
    replace_from(s, pattern, value, 0)
}

/// The items with `separator` between each two neighbours.
pub open spec fn joined(items: Seq<Seq<char>>, separator: Seq<char>) -> Seq<char>
    decreases items.len(),
{
    if items.len() == 0 {
        Seq::empty()
    } else if items.len() == 1 {
        items[0]
    } else {
        joined(items.drop_last(), separator) + separator + items.last()
    }
}

/// The characters of `s`, one by one.
pub fn to_chars(s: &str) -> (v: Vec<char>)
    ensures
        v@ == s@,
{
    let mut v: Vec<char> = Vec::new();
    for c in it: s.chars()
        invariant
            it.seq() == s@,
            v@ == s@.take(it.index() as int),
    {
        v.push(c);
    }
    v
}

/// Whether `s` begins with `prefix`, both given as characters: a test on the
/// text alone, which knows nothing of path separators.
pub fn chars_start_with(s: &Vec<char>, prefix: &Vec<char>) -> (r: bool)
    ensures
        r == prefix@.is_prefix_of(s@),
{
    if prefix.len() > s.len() {
        return false;
    }
    let mut i: usize = 0;
    while i < prefix.len()
        invariant
            i <= prefix.len() <= s.len(),
            forall|k: int| 0 <= k < i ==> s@[k] == prefix@[k],
        decreases prefix.len() - i,
    {
        if s[i] != prefix[i] {
            return false;
        }
        i = i + 1;
    }
    true
}

/// Whether the two strings hold the same text.
pub fn same_text(a: &str, b: &str) -> (r: bool)
    ensures
        r == (a@ == b@),
{
    let x = to_chars(a);
    let y = to_chars(b);
    if x.len() != y.len() {
        return false;
    }
    let r = chars_start_with(&x, &y);
    proof {
        if r {
            assert(x@.subrange(0, y@.len() as int) =~= x@);
        }
    }
    r
}

/// Whether `pattern` stands in `s` at position `i`.
fn chars_occur_at(s: &Vec<char>, pattern: &Vec<char>, i: usize) -> (r: bool)
    requires
        i <= s.len(),
    ensures
        r == occurs_at(s@, pattern@, i as int),
{
    if pattern.len() > s.len() - i {
        return false;
    }
    let mut k: usize = 0;
    while k < pattern.len()
        invariant
            k <= pattern.len(),
            i + pattern.len() <= s.len(),
            forall|j: int| 0 <= j < k ==> s@[i + j] == pattern@[j],
        decreases pattern.len() - k,
    {
        if s[i + k] != pattern[k] {
            return false;
        }
        k = k + 1;
    }
    assert(s@.subrange(i as int, i + pattern@.len()) =~= pattern@);
    true
}

/// Every step of the scan that `replace_from` describes keeps what was
/// written before it.
proof fn lemma_replace_step(s: Seq<char>, pattern: Seq<char>, value: Seq<char>, i: int)
    requires
        0 <= i < s.len(),
    ensures
        pattern.len() > 0 && occurs_at(s, pattern, i) ==> replace_from(s, pattern, value, i)
            == value + replace_from(s, pattern, value, i + pattern.len()),
        !(pattern.len() > 0 && occurs_at(s, pattern, i)) ==> replace_from(s, pattern, value, i)
            == seq![s[i]] + replace_from(s, pattern, value, i + 1),
{
}

/// `template` with every occurrence of `placeholder` replaced by `value`.
pub fn replace(template: &str, placeholder: &str, value: &str) -> (r: String)
    ensures
        r@ == replace_all(template@, placeholder@, value@),
{
    let s = to_chars(template);
    let p = to_chars(placeholder);
    let n = s.len();
    let mut out = String::new();
    let mut start: usize = 0;
    let mut i: usize = 0;
    while i < n
        invariant
            s@ == template@,
            p@ == placeholder@,
            n == s.len(),
            start <= i <= n,
            out@ + s@.subrange(start as int, i as int) + replace_from(s@, p@, value@, i as int)
                == replace_all(s@, p@, value@),
        decreases n - i,
    {
        proof {
            lemma_replace_step(s@, p@, value@, i as int);
        }
        let hit = p.len() > 0 && chars_occur_at(&s, &p, i);
        if hit {
            let ghost before = out@;
            out.append(template.substring_char(start, i));
            out.append(value);
            assert(out@ + s@.subrange((i + p.len()) as int, (i + p.len()) as int) =~= before
                + s@.subrange(start as int, i as int) + value@);
            assert(out@ + s@.subrange((i + p.len()) as int, (i + p.len()) as int)
                + replace_from(s@, p@, value@, i + p.len()) =~= before + s@.subrange(
                start as int,
                i as int,
            ) + (value@ + replace_from(s@, p@, value@, i + p.len())));
            i = i + p.len();
            start = i;
        } else {
            assert(s@.subrange(start as int, i + 1) =~= s@.subrange(start as int, i as int)
                + seq![s@[i as int]]);
            assert(out@ + s@.subrange(start as int, i + 1) + replace_from(s@, p@, value@, i + 1)
                =~= out@ + s@.subrange(start as int, i as int) + (seq![s@[i as int]]
                + replace_from(s@, p@, value@, i + 1)));
            i = i + 1;
        }
    }
    out.append(template.substring_char(start, n));
    out
}

/// The strings of `items` with `separator` between each two neighbours.
pub fn join(items: &Vec<String>, separator: &str) -> (r: String)
    ensures
        r@ == joined(views(items@), separator@),
{
    let mut out = String::new();
    let mut i: usize = 0;
    while i < items.len()
        invariant
            i <= items.len(),
            out@ == joined(views(items@).take(i as int), separator@),
        decreases items.len() - i,
    {
        let ghost done = views(items@).take(i as int);
        let ghost next = views(items@).take(i + 1);
        proof {
            assert(next.drop_last() =~= done);
        }
        if i > 0 {
            out.append(separator);
        }
        out.append(items[i].as_str());
        i = i + 1;
    }
    assert(views(items@).take(items@.len() as int) =~= views(items@));
    out
}

} // verus!
