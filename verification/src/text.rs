//! Small verified helpers on strings and character sequences.

use vstd::prelude::*;

verus! {

/// Appends one character to a string.
///
/// Specifies `String::push` of the standard library: the string afterwards
/// is the string before followed by the character.
pub assume_specification[ String::push ](s: &mut String, c: char)
    ensures
        final(s)@ == old(s)@.push(c),
;

/// The character sequence of a string slice, as a vector.
pub fn chars_of(s: &str) -> (v: Vec<char>)
    ensures
        v@ == s@,
{
    let mut v: Vec<char> = Vec::new();
    for c in it: s.chars()
        invariant
            v@ == it.seq().take(it.index() as int),
            it.seq() == s@,
    {
        v.push(c);
    }
    v
}

/// The string made of the characters `s[from..to]`.
pub(crate) fn string_of(s: &[char], from: usize, to: usize) -> (r: String)
    requires
        from <= to <= s@.len(),
    ensures
        r@ == s@.subrange(from as int, to as int),
{
    let mut r = String::new();
    let mut i: usize = from;
    while i < to
        invariant
            from <= i <= to <= s@.len(),
            r@ == s@.subrange(from as int, i as int),
        decreases to - i,
    {
        r.push(s[i]);
        i += 1;
    }
    r
}

/// A copy of a list of strings.
pub fn clone_strings(v: &Vec<String>) -> (r: Vec<String>)
    ensures
        r@.len() == v@.len(),
        forall|i: int| 0 <= i < v@.len() ==> (#[trigger] r@[i])@ == v@[i]@,
{
    let mut r: Vec<String> = Vec::new();
    let mut i: usize = 0;
    while i < v.len()
        invariant
            i <= v@.len(),
            r@.len() == i,
            forall|k: int| 0 <= k < i ==> (#[trigger] r@[k])@ == v@[k]@,
        decreases v@.len() - i,
    {
        r.push(v[i].clone());
        i += 1;
    }
    r
}

/// The decimal digit for a value below ten.
pub open spec fn digit_char(d: nat) -> char {
    if d == 0 {
        '0'
    } else if d == 1 {
        '1'
    } else if d == 2 {
        '2'
    } else if d == 3 {
        '3'
    } else if d == 4 {
        '4'
    } else if d == 5 {
        '5'
    } else if d == 6 {
        '6'
    } else if d == 7 {
        '7'
    } else if d == 8 {
        '8'
    } else {
        '9'
    }
}

/// The decimal notation of a natural number, without leading zeros.
pub open spec fn decimal(n: nat) -> Seq<char>
    decreases n,
{
    if n < 10 {
        seq![digit_char(n)]
    } else {
        decimal(n / 10).push(digit_char(n % 10))
    }
}

fn digit_of(d: usize) -> (c: char)
    requires
        d < 10,
    ensures
        c == digit_char(d as nat),
{
    if d == 0 {
        '0'
    } else if d == 1 {
        '1'
    } else if d == 2 {
        '2'
    } else if d == 3 {
        '3'
    } else if d == 4 {
        '4'
    } else if d == 5 {
        '5'
    } else if d == 6 {
        '6'
    } else if d == 7 {
        '7'
    } else if d == 8 {
        '8'
    } else {
        '9'
    }
}

/// Appends the decimal notation of `n` to `out`.
pub fn push_decimal(out: &mut String, n: usize)
    ensures
        final(out)@ == old(out)@ + decimal(n as nat),
    decreases n,
{
    if n < 10 {
        out.push(digit_of(n));
    } else {
        push_decimal(out, n / 10);
        out.push(digit_of(n % 10));
    }
}

/// The position of the first occurrence of `x` in `list`, or -1.
pub open spec fn first_index(list: Seq<Seq<char>>, x: Seq<char>) -> int
    decreases list.len(),
{
    if list.len() == 0 {
        -1
    } else {
        let before = first_index(list.drop_last(), x);
        if before >= 0 {
            before
        } else if list.last() == x {
            list.len() - 1
        } else {
            -1
        }
    }
}

/// What `first_index` finds is the first occurrence; -1 means that there
/// is none.
pub proof fn lemma_first_index(list: Seq<Seq<char>>, x: Seq<char>)
    ensures
        -1 <= first_index(list, x) < list.len(),
        first_index(list, x) >= 0 ==> list[first_index(list, x)] == x,
        forall|j: int| 0 <= j < list.len() && list[j] == x ==> 0 <= first_index(list, x) <= j,
    decreases list.len(),
{
    if list.len() > 0 {
        lemma_first_index(list.drop_last(), x);
        assert forall|j: int| 0 <= j < list.len() && list[j] == x implies 0 <= first_index(
            list,
            x,
        ) <= j by {
            if j < list.len() - 1 {
                assert(list.drop_last()[j] == x);
            }
        }
    }
}

/// Adding an element at the end keeps the first occurrence of `x` where
/// there was one, and else finds `x` at the end or not at all.
pub proof fn lemma_first_index_push(list: Seq<Seq<char>>, y: Seq<char>, x: Seq<char>)
    ensures
        first_index(list.push(y), x) == if first_index(list, x) >= 0 {
            first_index(list, x)
        } else if y == x {
            list.len() as int
        } else {
            -1
        },
{
    assert(list.push(y).drop_last() =~= list);
}

} // verus!
