//! Plain string machinery for the wire format: finding a delimiter,
//! splitting on one, joining with a separator, and the splitting laws
//! behind the codec's round trip.

use vstd::prelude::*;

verus! {

/// Index of the first occurrence of `c` in `s`.
pub open spec fn spec_find(s: Seq<char>, c: char) -> Option<int>
    decreases s.len(),
{
    if s.len() == 0 {
        None
    } else if s[0] == c {
        Some(0)
    } else {
        match spec_find(s.skip(1), c) {
            None => None,
            Some(i) => Some(i + 1),
        }
    }
}

/// `spec_find` names the first occurrence: the character stands there,
/// and nowhere earlier; a `None` means the character does not occur.
pub proof fn lemma_find_spec(s: Seq<char>, c: char)
    ensures
        match spec_find(s, c) {
            Some(i) => 0 <= i < s.len() && s[i] == c && forall|j: int|
                0 <= j < i ==> s[j] != c,
            None => !s.contains(c),
        },
    decreases s.len(),
{
    if s.len() > 0 && s[0] != c {
        lemma_find_spec(s.skip(1), c);
        assert(forall|k: int| 1 <= k < s.len() ==> s[k] == #[trigger] s.skip(1)[k - 1]);
        match spec_find(s.skip(1), c) {
            None => {
                assert(!s.contains(c)) by {
                    if s.contains(c) {
                        let k = choose|k: int| 0 <= k < s.len() && s[k] == c;
                        assert(s.skip(1)[k - 1] == c);
                        assert(s.skip(1).contains(c));
                    }
                }
            },
            Some(i) => {
                assert(s[i + 1] == s.skip(1)[i]);
                assert forall|j: int| 0 <= j < i + 1 implies s[j] != c by {
                    if j >= 1 {
                        assert(s.skip(1)[j - 1] != c);
                    }
                }
            },
        }
    }
}

/// Conversely, the index of a first occurrence is what `spec_find` finds.
pub proof fn lemma_find_first(s: Seq<char>, c: char, i: int)
    requires
        0 <= i < s.len(),
        s[i] == c,
        forall|j: int| 0 <= j < i ==> s[j] != c,
    ensures
        spec_find(s, c) == Some(i),
    decreases s.len(),
{
    if i > 0 {
        assert(forall|k: int| 1 <= k < s.len() ==> s[k] == #[trigger] s.skip(1)[k - 1]);
        lemma_find_first(s.skip(1), c, i - 1);
    }
}

/// Index of the first occurrence of `c` in `s`, scanning left to right.
pub fn find_char(s: &str, c: char) -> (r: Option<usize>)
    ensures
        match r {
            Some(i) => spec_find(s@, c) == Some(i as int),
            None => spec_find(s@, c) is None,
        },
{
    let n = s.unicode_len();
    let mut i: usize = 0;
    while i < n
        invariant
            0 <= i <= n,
            n == s@.len(),
            forall|j: int| 0 <= j < i ==> s@[j] != c,
        decreases n - i,
    {
        if s.get_char(i) == c {
            proof {
                lemma_find_first(s@, c, i as int);
            }
            return Some(i);
        }
        i = i + 1;
    }
    proof {
        lemma_find_spec(s@, c);
        if spec_find(s@, c) is Some {
            let k = spec_find(s@, c)->0;
            assert(s@[k] != c);
        }
    }
    None
}

/// The pieces of `s` between occurrences of `sep`: always one more piece
/// than there are separators, so the empty string has one empty piece.
pub open spec fn split_on(s: Seq<char>, sep: char) -> Seq<Seq<char>>
    decreases s.len(),
    via split_on_decreases
{
    match spec_find(s, sep) {
        None => seq![s],
        Some(i) => seq![s.take(i)] + split_on(s.skip(i + 1), sep),
    }
}

#[via_fn]
proof fn split_on_decreases(s: Seq<char>, sep: char) {
    lemma_find_spec(s, sep);
}

/// The concatenation of `parts` with `sep` between consecutive parts.
pub open spec fn join_with(parts: Seq<Seq<char>>, sep: Seq<char>) -> Seq<char>
    decreases parts.len(),
{
    if parts.len() == 0 {
        Seq::<char>::empty()
    } else if parts.len() == 1 {
        parts[0]
    } else {
        parts[0] + sep + join_with(parts.skip(1), sep)
    }
}

/// Splitting a string without the separator yields that one piece.
pub proof fn lemma_split_whole(s: Seq<char>, sep: char)
    requires
        !s.contains(sep),
    ensures
        split_on(s, sep) == seq![s],
{
    lemma_find_spec(s, sep);
    if spec_find(s, sep) is Some {
        let i = spec_find(s, sep)->0;
        assert(s[i] == sep);
        assert(s.contains(sep));
    }
}

/// Splitting off a separator-free head piece.
pub proof fn lemma_split_head(a: Seq<char>, b: Seq<char>, sep: char)
    requires
        !a.contains(sep),
    ensures
        split_on(a + seq![sep] + b, sep) == seq![a] + split_on(b, sep),
{
    let s = a + seq![sep] + b;
    assert(s[a.len() as int] == sep);
    assert(forall|j: int| 0 <= j < a.len() ==> s[j] == a[j]);
    assert(forall|j: int| 0 <= j < a.len() ==> s[j] != sep) by {
        assert(forall|j: int| 0 <= j < a.len() ==> a[j] != sep);
    }
    lemma_find_first(s, sep, a.len() as int);
    assert(s.take(a.len() as int) =~= a);
    assert(s.skip(a.len() as int + 1) =~= b);
}

/// Round trip of the joiner and the splitter: splitting a join of
/// separator-free parts yields the parts back.
pub proof fn lemma_split_of_join(parts: Seq<Seq<char>>, sep: char)
    requires
        parts.len() > 0,
        forall|i: int| 0 <= i < parts.len() ==> !(#[trigger] parts[i]).contains(sep),
    ensures
        split_on(join_with(parts, seq![sep]), sep) == parts,
    decreases parts.len(),
{
    if parts.len() == 1 {
        lemma_split_whole(parts[0], sep);
        assert(seq![parts[0]] =~= parts);
    } else {
        lemma_split_of_join(parts.skip(1), sep);
        lemma_split_head(parts[0], join_with(parts.skip(1), seq![sep]), sep);
        assert(parts[0] + seq![sep] + join_with(parts.skip(1), seq![sep]) =~= join_with(
            parts,
            seq![sep],
        ));
        assert(seq![parts[0]] + parts.skip(1) =~= parts);
    }
}

/// Joining distributes over concatenation of the part lists when the
/// left list is non-empty.
pub proof fn lemma_join_push(parts: Seq<Seq<char>>, sep: Seq<char>, last: Seq<char>)
    ensures
        parts.len() == 0 ==> join_with(parts.push(last), sep) == last,
        parts.len() > 0 ==> join_with(parts.push(last), sep) == join_with(parts, sep) + sep
            + last,
    decreases parts.len(),
{
    reveal_with_fuel(join_with, 3);
    if parts.len() == 0 {
        assert(parts.push(last)[0] == last);
        assert(parts.push(last).len() == 1);
    } else if parts.len() == 1 {
        let p = parts.push(last);
        assert(p.len() == 2);
        assert(p.skip(1) =~= seq![last]);
        assert(p[0] == parts[0]);
        assert(join_with(p, sep) =~= join_with(parts, sep) + sep + last);
    } else {
        let p = parts.push(last);
        assert(p.skip(1) =~= parts.skip(1).push(last));
        lemma_join_push(parts.skip(1), sep, last);
        assert(p[0] == parts[0]);
        let tail = join_with(parts.skip(1), sep);
        assert(join_with(p, sep) == parts[0] + sep + (tail + sep + last));
        assert(join_with(parts, sep) == parts[0] + sep + tail);
        assert(parts[0] + sep + (tail + sep + last) =~= (parts[0] + sep + tail) + sep + last);
    }
}

/// Splits `s` at every occurrence of `sep`.
pub fn split_str(s: &str, sep: char) -> (r: Vec<String>)
    ensures
        r@.map_values(|p: String| p@) == split_on(s@, sep),
{
    let mut rest: &str = s;
    let mut out: Vec<String> = Vec::new();
    loop
        invariant
            out@.map_values(|p: String| p@) + split_on(rest@, sep) =~= split_on(s@, sep),
        decreases rest@.len(),
    {
        match find_char(rest, sep) {
            Some(i) => {
                proof {
                    lemma_find_spec(rest@, sep);
                }
                let n = rest.unicode_len();
                let piece = rest.substring_char(0, i);
                let tail = rest.substring_char(i + 1, n);
                proof {
                    assert(piece@ =~= rest@.take(i as int));
                    assert(tail@ =~= rest@.skip(i + 1));
                    assert(split_on(rest@, sep) == seq![rest@.take(i as int)] + split_on(
                        rest@.skip(i + 1),
                        sep,
                    ));
                }
                let ghost prev = out@.map_values(|p: String| p@);
                out.push(piece.to_owned());
                proof {
                    assert(out@.map_values(|p: String| p@) =~= prev.push(piece@));
                    assert(prev.push(piece@) + split_on(tail@, sep) =~= prev + split_on(
                        rest@,
                        sep,
                    ));
                }
                rest = tail;
            },
            None => {
                proof {
                    lemma_find_spec(rest@, sep);
                    lemma_split_whole(rest@, sep);
                }
                let ghost prev = out@.map_values(|p: String| p@);
                out.push(rest.to_owned());
                proof {
                    assert(out@.map_values(|p: String| p@) =~= prev.push(rest@));
                    assert(prev.push(rest@) =~= prev + seq![rest@]);
                }
                return out;
            },
        }
    }
}

/// Joins rendered pieces with a separator.
pub fn join_strings(parts: &Vec<String>, sep: &str) -> (r: String)
    ensures
        r@ == join_with(parts@.map_values(|p: String| p@), sep@),
{
    let ghost model = parts@.map_values(|p: String| p@);
    let mut out = String::new();
    let mut i: usize = 0;
    while i < parts.len()
        invariant
            0 <= i <= parts.len(),
            model == parts@.map_values(|p: String| p@),
            model.len() == parts@.len(),
            out@ == join_with(model.take(i as int), sep@),
        decreases parts.len() - i,
    {
        if i > 0 {
            out.append(sep);
        }
        out.append(parts[i].as_str());
        proof {
            assert(model.take(i as int + 1) =~= model.take(i as int).push(model[i as int]));
            lemma_join_push(model.take(i as int), sep@, model[i as int]);
        }
        i = i + 1;
    }
    proof {
        assert(model.take(i as int) =~= model);
    }
    out
}

/// Equality of two string slices, decided by their character sequences.
pub fn str_eq(a: &str, b: &str) -> (r: bool)
    ensures
        r == (a@ == b@),
{
    let sa: String = a.to_owned();
    let sb: String = b.to_owned();
    sa == sb
}

/// Whether `s` contains the character `c`.
pub fn contains_char(s: &str, c: char) -> (r: bool)
    ensures
        r == s@.contains(c),
{
    match find_char(s, c) {
        Some(i) => {
            proof {
                lemma_find_spec(s@, c);
            }
            true
        },
        None => {
            proof {
                lemma_find_spec(s@, c);
            }
            false
        },
    }
}

} // verus!
