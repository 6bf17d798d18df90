//! Inline `style` attributes of SVG elements: the value a declaration
//! gives a property.

use vstd::prelude::*;
use vstd::string::StringExecFns;

use crate::chars::str_chars;
use crate::hppr_coordinate::{lemma_position_of, position_of};
use crate::text::{find_char, lemma_split_at_first, split_on, trim, trim_bounds};

verus! {

/// `c` in ASCII lower case.
pub open spec fn ascii_lower(c: char) -> char {
    if 'A' <= c <= 'Z' {
        ((c as u32) + 32) as char
    } else {
        c
    }
}

/// Whether two strings are equal when ASCII letters are compared without
/// case.
pub open spec fn eq_ignore_ascii_case(a: Seq<char>, b: Seq<char>) -> bool {
    a.len() == b.len() && forall|i: int| 0 <= i < a.len() ==> #[trigger] ascii_lower(a[i]) == ascii_lower(b[i])
}

/// The value that a `name: value` declaration gives `property`: the text
/// after its first colon, trimmed, where the text before it names the
/// property.
pub open spec fn declaration_value(d: Seq<char>, property: Seq<char>) -> Option<Seq<char>> {
    let i = position_of(d, ':') as int;
    if i < d.len() && eq_ignore_ascii_case(trim(d.subrange(0, i)), property) {
        Some(trim(d.subrange(i + 1, d.len() as int)))
    } else {
        None
    }
}

/// The value that the last declaration naming `property` gives it.
pub open spec fn last_declaration_value(declarations: Seq<Seq<char>>, property: Seq<char>) -> Option<Seq<char>>
    decreases declarations.len(),
{
    if declarations.len() == 0 {
        None
    } else {
        match declaration_value(declarations.last(), property) {
            Some(v) => Some(v),
            None => last_declaration_value(declarations.drop_last(), property),
        }
    }
}

/// The value of `property` in a `style` attribute: the last of its
/// `;`-separated declarations that names the property (ASCII case aside).
pub open spec fn inline_style_value(style: Seq<char>, property: Seq<char>) -> Option<Seq<char>> {
    last_declaration_value(split_on(style, ';'), property)
}

/// Whether two characters are equal when ASCII letters are compared
/// without case.
fn chars_eq_ignore_ascii_case(a: char, b: char) -> (r: bool)
    ensures
        r == (ascii_lower(a) == ascii_lower(b)),
{
    let la = if 'A' <= a && a <= 'Z' {
        char_from_u32_lower(a)
    } else {
        a
    };
    let lb = if 'A' <= b && b <= 'Z' {
        char_from_u32_lower(b)
    } else {
        b
    };
    la == lb
}

/// The lower-case letter of an upper-case ASCII letter.
fn char_from_u32_lower(c: char) -> (r: char)
    requires
        'A' <= c <= 'Z',
    ensures
        r == ascii_lower(c),
{
    let lower = ['a', 'b', 'c', 'd', 'e', 'f', 'g', 'h', 'i', 'j', 'k', 'l', 'm', 'n', 'o', 'p', 'q', 'r', 's', 't', 'u', 'v', 'w', 'x', 'y', 'z'];
    let i = (c as u32 - 'A' as u32) as usize;
    let r = lower[i];
    assert(r == ascii_lower(c)) by {
        assert(lower@[i as int] as u32 == 'a' as u32 + i);
    }
    r
}

/// Whether `s[lo..hi]` equals `p` when ASCII letters are compared without
/// case.
fn range_eq_ignore_ascii_case(s: &[char], lo: usize, hi: usize, p: &[char]) -> (r: bool)
    requires
        lo <= hi <= s.len(),
    ensures
        r == eq_ignore_ascii_case(s@.subrange(lo as int, hi as int), p@),
{
    if hi - lo != p.len() {
        return false;
    }
    let mut i: usize = 0;
    while i < p.len()
        invariant
            i <= p.len() == hi - lo,
            lo <= hi <= s.len(),
            forall|k: int| 0 <= k < i ==> #[trigger] ascii_lower(s@[lo + k]) == ascii_lower(p@[k]),
        decreases p.len() - i,
    {
        if !chars_eq_ignore_ascii_case(s[lo + i], p[i]) {
            assert(s@.subrange(lo as int, hi as int)[i as int] == s@[lo + i]);
            return false;
        }
        i = i + 1;
    }
    assert forall|k: int| 0 <= k < p.len() implies #[trigger] ascii_lower(s@.subrange(lo as int, hi as int)[k])
        == ascii_lower(p@[k]) by {
        assert(s@.subrange(lo as int, hi as int)[k] == s@[lo + k]);
    }
    true
}

/// Every range lies within `0..n`.
pub open spec fn bounds_within(b: Seq<(usize, usize)>, n: usize) -> bool {
    forall|k: int| 0 <= k < b.len() ==> #[trigger] b[k].0 <= b[k].1 && b[k].1 <= n
}

/// The value of `property` in the inline `style` attribute text: the last
/// `;`-separated declaration whose name, trimmed, is `property` (ASCII case
/// aside) gives it, trimmed.
pub fn inline_style_property(style: &str, property: &str) -> (r: Option<String>)
    ensures
        match r {
            Some(v) => inline_style_value(style@, property@) == Some(v@),
            None => inline_style_value(style@, property@) is None,
        },
{
    let s = str_chars(style);
    let p = str_chars(property);
    let n = s.len();
    // The bounds of the declarations, in order.
    let mut bounds: Vec<(usize, usize)> = Vec::new();
    let ghost all = split_on(s@, ';');
    let mut start: usize = 0;
    proof {
        assert(s@.subrange(0, n as int) =~= s@);
        assert(Seq::new(0, |k: int| s@.subrange(bounds@[k].0 as int, bounds@[k].1 as int)) + split_on(s@, ';') =~= all);
    }
    loop
        invariant_except_break
            n == s.len(),
            start <= n,
            all == split_on(s@, ';'),
            all == Seq::new(bounds@.len(), |k: int| s@.subrange(bounds@[k].0 as int, bounds@[k].1 as int)) + split_on(
                s@.subrange(start as int, n as int),
                ';',
            ),
            bounds_within(bounds@, n),
        ensures
            n == s.len(),
            all == split_on(s@, ';'),
            all == Seq::new(bounds@.len(), |k: int| s@.subrange(bounds@[k].0 as int, bounds@[k].1 as int)),
            bounds_within(bounds@, n),
        decreases n - start,
    {
        let j = find_char(s.as_slice(), start, ';');
        let ghost t = s@.subrange(start as int, n as int);
        let ghost done = Seq::new(bounds@.len(), |k: int| s@.subrange(bounds@[k].0 as int, bounds@[k].1 as int));
        proof {
            assert forall|i: int| 0 <= i < j - start implies t[i] != ';' by {
                assert(t[i] == s@[start + i]);
            }
            if j < n {
                assert(t[j - start] == s@[j as int]);
                assert(t.subrange(j - start + 1, t.len() as int) =~= s@.subrange(j + 1, n as int));
            }
            lemma_split_at_first(t, ';', j - start);
            assert(t.subrange(0, j - start) =~= s@.subrange(start as int, j as int));
        }
        let ghost old_bounds = bounds@;
        bounds.push((start, j));
        proof {
            assert forall|k: int| 0 <= k < bounds@.len() implies #[trigger] bounds@[k].0 <= bounds@[k].1 && bounds@[k].1 <= n by {
                if k < old_bounds.len() {
                    assert(bounds@[k] == old_bounds[k]);
                }
            }
        }
        let ghost done2 = Seq::new(bounds@.len(), |k: int| s@.subrange(bounds@[k].0 as int, bounds@[k].1 as int));
        proof {
            assert(done2 =~= done.push(s@.subrange(start as int, j as int)));
        }
        if j == n {
            proof {
                assert(split_on(t, ';') == seq![t]);
                assert(t =~= s@.subrange(start as int, j as int));
                assert(all =~= done2);
            }
            break;
        }
        proof {
            assert(all =~= done2 + split_on(s@.subrange(j + 1, n as int), ';'));
        }
        start = j + 1;
    }
    let ghost decls = Seq::new(bounds@.len(), |k: int| s@.subrange(bounds@[k].0 as int, bounds@[k].1 as int));
    assert(all == decls);
    assert(decls.take(bounds@.len() as int) =~= decls);
    // The last declaration that names the property gives its value.
    let mut k = bounds.len();
    while k > 0
        invariant
            k <= bounds@.len(),
            decls.len() == bounds@.len(),
            decls == Seq::new(bounds@.len(), |q: int| s@.subrange(bounds@[q].0 as int, bounds@[q].1 as int)),
            forall|q: int| 0 <= q < bounds@.len() ==> #[trigger] bounds@[q].0 <= bounds@[q].1 <= s.len(),
            inline_style_value(style@, property@) == last_declaration_value(decls.take(k as int), property@),
            s@ == style@,
            p@ == property@,
        decreases k,
    {
        let (lo, hi) = bounds[k - 1];
        let ghost d = s@.subrange(lo as int, hi as int);
        assert(decls.take(k as int).last() == d);
        assert(decls.take(k as int).drop_last() =~= decls.take(k - 1));
        let c = find_char(s.as_slice(), lo, ':');
        proof {
            assert forall|i: int| 0 <= i < (if c < hi { c } else { hi }) - lo implies d[i] != ':' by {
                assert(d[i] == s@[lo + i]);
            }
            if c < hi {
                assert(d[c - lo] == s@[c as int]);
                lemma_position_of(d, ':', c - lo);
            } else {
                lemma_position_of(d, ':', d.len() as int);
            }
        }
        if c < hi {
            let (a, b) = trim_bounds(s.as_slice(), lo, c);
            proof {
                assert(d.subrange(0, c - lo) =~= s@.subrange(lo as int, c as int));
            }
            if range_eq_ignore_ascii_case(s.as_slice(), a, b, p.as_slice()) {
                let (e, f) = trim_bounds(s.as_slice(), c + 1, hi);
                proof {
                    assert(d.subrange(c - lo + 1, d.len() as int) =~= s@.subrange(c + 1, hi as int));
                }
                return Some(style.substring_char(e, f).to_owned());
            }
        }
        k = k - 1;
    }
    assert(decls.take(0) =~= Seq::<Seq<char>>::empty());
    None
}

} // verus!
