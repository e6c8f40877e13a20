//! Text: blank lines, and the order of names.

use vstd::prelude::*;

verus! {

broadcast use vstd::string::group_string_axioms;

/// `std::string::String::push`: appends one character.
pub assume_specification[ String::push ](s: &mut String, c: char)
    ensures
        final(s)@ == old(s)@.push(c),
;

/// The characters with the Unicode property `White_Space`.
pub open spec fn is_white_space(c: char) -> bool {
    ||| '\u{9}' <= c <= '\u{d}'
    ||| c == ' '
    ||| c == '\u{85}'
    ||| c == '\u{a0}'
    ||| c == '\u{1680}'
    ||| '\u{2000}' <= c <= '\u{200a}'
    ||| '\u{2028}' <= c <= '\u{2029}'
    ||| c == '\u{202f}'
    ||| c == '\u{205f}'
    ||| c == '\u{3000}'
}

/// A text of white space alone, or of nothing.
pub open spec fn blank(s: Seq<char>) -> bool {
    forall|i: int| 0 <= i < s.len() ==> is_white_space(#[trigger] s[i])
}

fn white_space(c: char) -> (yes: bool)
    ensures
        yes == is_white_space(c),
{
    ('\u{9}' <= c && c <= '\u{d}') || c == ' ' || c == '\u{85}' || c == '\u{a0}' || c == '\u{1680}'
        || ('\u{2000}' <= c && c <= '\u{200a}') || ('\u{2028}' <= c && c <= '\u{2029}') || c
        == '\u{202f}' || c == '\u{205f}' || c == '\u{3000}'
}

/// Whether nothing is left of a line once the white space around it is trimmed.
pub fn is_blank(line: &str) -> (yes: bool)
    ensures
        yes == blank(line@),
{
    for c in it: line.chars()
        invariant
            it.seq() == line@,
            forall|i: int| 0 <= i < it.index() ==> is_white_space(#[trigger] line@[i]),
    {
        if !white_space(c) {
            assert(!is_white_space(line@[it.index() as int]));
            return false;
        }
    }
    true
}

/// Texts ordered as words in a dictionary, character by character in the order of the code
/// points: whether `a` comes before `b` or is the same.
pub open spec fn name_le(a: Seq<char>, b: Seq<char>) -> bool
    decreases a.len(),
{
    if a.len() == 0 {
        true
    } else if b.len() == 0 {
        false
    } else if a[0] != b[0] {
        a[0] < b[0]
    } else {
        name_le(a.drop_first(), b.drop_first())
    }
}

/// Of two names one comes before the other.
pub proof fn name_le_total(a: Seq<char>, b: Seq<char>)
    ensures
        name_le(a, b) || name_le(b, a),
    decreases a.len(),
{
    if a.len() > 0 && b.len() > 0 && a[0] == b[0] {
        name_le_total(a.drop_first(), b.drop_first());
    }
}

/// What comes before a name that comes before a third comes before the third.
pub proof fn name_le_transitive(a: Seq<char>, b: Seq<char>, c: Seq<char>)
    requires
        name_le(a, b),
        name_le(b, c),
    ensures
        name_le(a, c),
    decreases a.len(),
{
    if a.len() > 0 && b.len() > 0 && c.len() > 0 && a[0] == b[0] && b[0] == c[0] {
        name_le_transitive(a.drop_first(), b.drop_first(), c.drop_first());
    }
}

/// Only a name itself comes both before and after it.
pub proof fn name_le_antisymmetric(a: Seq<char>, b: Seq<char>)
    requires
        name_le(a, b),
        name_le(b, a),
    ensures
        a == b,
    decreases a.len(),
{
    if a.len() > 0 && b.len() > 0 {
        name_le_antisymmetric(a.drop_first(), b.drop_first());
        assert(a =~= seq![a[0]] + a.drop_first());
        assert(b =~= seq![b[0]] + b.drop_first());
    } else {
        assert(a =~= b);
    }
}

/// Whether the name `a` comes before `b` or is the same.
pub fn name_before(a: &str, b: &str) -> (yes: bool)
    ensures
        yes == name_le(a@, b@),
{
    let mut left = a.chars();
    let mut right = b.chars();
    let ghost mut i: int = 0;
    loop
        invariant
            0 <= i <= a@.len(),
            i <= b@.len(),
            vstd::std_specs::iter::IteratorSpec::obeys_prophetic_iter_laws(&left),
            vstd::std_specs::iter::IteratorSpec::obeys_prophetic_iter_laws(&right),
            vstd::std_specs::iter::IteratorSpec::remaining(&left) == a@.skip(i),
            vstd::std_specs::iter::IteratorSpec::remaining(&right) == b@.skip(i),
            name_le(a@, b@) == name_le(a@.skip(i), b@.skip(i)),
        decreases a@.len() - i,
    {
        let x = left.next();
        let y = right.next();
        match (x, y) {
            (None, _) => {
                return true;
            },
            (Some(_), None) => {
                return false;
            },
            (Some(p), Some(q)) => {
                if p != q {
                    return p < q;
                }
                proof {
                    assert(a@.skip(i).drop_first() =~= a@.skip(i + 1));
                    assert(b@.skip(i).drop_first() =~= b@.skip(i + 1));
                    i = i + 1;
                }
            },
        }
    }
}

/// White space is these characters and no others.
pub proof fn white_space_is_listed(c: char)
    ensures
        is_white_space(c) <==> seq![
            0x9u32, 0xa, 0xb, 0xc, 0xd, 0x20, 0x85, 0xa0, 0x1680, 0x2000, 0x2001, 0x2002, 0x2003,
            0x2004, 0x2005, 0x2006, 0x2007, 0x2008, 0x2009, 0x200a, 0x2028, 0x2029, 0x202f, 0x205f,
            0x3000,
        ].contains(c as u32),
{
    let listed = seq![
        0x9u32, 0xa, 0xb, 0xc, 0xd, 0x20, 0x85, 0xa0, 0x1680, 0x2000, 0x2001, 0x2002, 0x2003,
        0x2004, 0x2005, 0x2006, 0x2007, 0x2008, 0x2009, 0x200a, 0x2028, 0x2029, 0x202f, 0x205f,
        0x3000,
    ];
    let n = c as u32;
    if is_white_space(c) {
        let i = if n <= 0xd {
            n - 9
        } else if n == 0x20 {
            5
        } else if n == 0x85 {
            6
        } else if n == 0xa0 {
            7
        } else if n == 0x1680 {
            8
        } else if n <= 0x200a {
            n - 0x2000 + 9
        } else if n <= 0x2029 {
            n - 0x2028 + 20
        } else if n == 0x202f {
            22
        } else if n == 0x205f {
            23
        } else {
            24
        };
        assert(listed[i] == n);
    }
}

/// A line is blank exactly where both parts of it are, wherever it is cut; a line with one visible
/// character in it is not blank, and one of nothing is.
pub proof fn blank_in_all_parts(left: Seq<char>, c: char, right: Seq<char>)
    ensures
        blank(Seq::<char>::empty()),
        blank(left + right) <==> blank(left) && blank(right),
        blank(left.push(c) + right) <==> blank(left) && is_white_space(c) && blank(right),
{
    let whole = left + right;
    assert forall|i: int| 0 <= i < left.len() implies #[trigger] left[i] == whole[i] by {}
    assert forall|i: int| 0 <= i < right.len() implies #[trigger] right[i] == whole[left.len()
        + i] by {}
    let marked = left.push(c) + right;
    assert(marked[left.len() as int] == c);
    assert forall|i: int| 0 <= i < left.len() implies #[trigger] left[i] == marked[i] by {}
    assert forall|i: int| 0 <= i < right.len() implies #[trigger] right[i] == marked[left.len() + 1
        + i] by {}
}

/// The first character that differs decides the order of two names, by its code point.
pub proof fn first_difference_decides(
    common: Seq<char>,
    x: char,
    y: char,
    left: Seq<char>,
    right: Seq<char>,
)
    requires
        x != y,
    ensures
        name_le(common.push(x) + left, common.push(y) + right) <==> (x as u32) < (y as u32),
    decreases common.len(),
{
    let a = common.push(x) + left;
    let b = common.push(y) + right;
    if common.len() == 0 {
        assert(a[0] == x && b[0] == y);
    } else {
        let rest = common.drop_first();
        assert(a[0] == common[0] && b[0] == common[0]);
        assert(a.drop_first() =~= rest.push(x) + left);
        assert(b.drop_first() =~= rest.push(y) + right);
        first_difference_decides(rest, x, y, left, right);
    }
}

/// A name comes before those that go on from it.
pub proof fn beginning_comes_first(name: Seq<char>, more: Seq<char>)
    ensures
        name_le(name, name + more),
        more.len() > 0 ==> !name_le(name + more, name),
    decreases name.len(),
{
    let longer = name + more;
    if name.len() > 0 {
        assert(longer[0] == name[0]);
        assert(longer.drop_first() =~= name.drop_first() + more);
        beginning_comes_first(name.drop_first(), more);
    }
}

} // verus!
