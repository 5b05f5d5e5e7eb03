//! Names are `String`s at run time and `Seq<char>` in contracts; the helpers
//! here move between the two and search lists of names.

use vstd::prelude::*;

verus! {

/// The names held by a list of strings.
pub open spec fn names(v: Seq<String>) -> Seq<Seq<char>> {
    Seq::new(v.len(), |i: int| v[i]@)
}

/// The name held by an optional string.
pub open spec fn opt_name(o: Option<String>) -> Option<Seq<char>> {
    match o {
        Some(s) => Some(s@),
        None => None,
    }
}

/// The names held by an optional list of strings.
pub open spec fn opt_names(o: Option<Vec<String>>) -> Option<Seq<Seq<char>>> {
    match o {
        Some(v) => Some(names(v@)),
        None => None,
    }
}

/// Whether no name occurs twice in `s`.
pub open spec fn distinct(s: Seq<Seq<char>>) -> bool {
    forall|i: int, j: int| 0 <= i < j < s.len() ==> s[i] != s[j]
}

pub fn clone_names(v: &Vec<String>) -> (r: Vec<String>)
    ensures
        names(r@) == names(v@),
{
    let mut r: Vec<String> = Vec::new();
    let mut i: usize = 0;
    while i < v.len()
        invariant
            i <= v.len(),
            r.len() == i,
            forall|k: int| 0 <= k < i ==> r[k]@ == v[k]@,
        decreases v.len() - i,
    {
        r.push(v[i].clone());
        i += 1;
    }
    assert(names(r@) =~= names(v@));
    r
}

pub fn clone_opt_name(o: &Option<String>) -> (r: Option<String>)
    ensures
        opt_name(r) == opt_name(*o),
{
    match o {
        Some(s) => Some(s.clone()),
        None => None,
    }
}

pub fn clone_opt_names(o: &Option<Vec<String>>) -> (r: Option<Vec<String>>)
    ensures
        opt_names(r) == opt_names(*o),
{
    match o {
        Some(v) => Some(clone_names(v)),
        None => None,
    }
}

/// Whether `name` occurs in `v`.
pub fn contains_name(v: &Vec<String>, name: &String) -> (r: bool)
    ensures
        r == names(v@).contains(name@),
{
    let mut i: usize = 0;
    while i < v.len()
        invariant
            i <= v.len(),
            forall|k: int| 0 <= k < i ==> names(v@)[k] != name@,
        decreases v.len() - i,
    {
        if v[i] == *name {
            assert(names(v@)[i as int] == name@);
            return true;
        }
        i += 1;
    }
    false
}

/// Whether `i` is the first place of `s` that holds `true`.
pub open spec fn is_first_true(s: Seq<bool>, i: int) -> bool {
    &&& 0 <= i < s.len()
    &&& s[i]
    &&& forall|j: int| 0 <= j < i ==> !s[j]
}

/// The first place of `s` that holds `true`.
pub open spec fn first_true(s: Seq<bool>) -> Option<int> {
    if exists|i: int| is_first_true(s, i) {
        Some(choose|i: int| is_first_true(s, i))
    } else {
        None
    }
}

/// The one place of `s` that holds `true`, where exactly one does.
pub open spec fn sole_true(s: Seq<bool>) -> Option<int> {
    match first_true(s) {
        Some(i) => if forall|j: int| 0 <= j < s.len() && j != i ==> !s[j] {
            Some(i)
        } else {
            None
        },
        None => None,
    }
}

/// Whether `i` is the one place of `s` that holds `true`.
pub open spec fn is_sole_true(s: Seq<bool>, i: int) -> bool {
    &&& 0 <= i < s.len()
    &&& s[i]
    &&& forall|j: int| 0 <= j < s.len() && j != i ==> !s[j]
}

/// `sole_true` gives a place exactly where one place alone holds `true`,
/// and then it gives that place.
pub proof fn lemma_sole_true(s: Seq<bool>)
    ensures
        sole_true(s) matches Some(i) ==> is_sole_true(s, i),
        forall|i: int| is_sole_true(s, i) ==> sole_true(s) == Some(i),
{
    lemma_first_true_sound(s);
    assert forall|i: int| is_sole_true(s, i) implies sole_true(s) == Some(i) by {
        assert(is_first_true(s, i));
        lemma_first_true_is(s, i);
    }
}

pub proof fn lemma_first_true_is(s: Seq<bool>, i: int)
    requires
        is_first_true(s, i),
    ensures
        first_true(s) == Some(i),
{
    let j = choose|j: int| is_first_true(s, j);
    assert(is_first_true(s, j));
    if j < i {
        assert(!s[j]);
    }
    if i < j {
        assert(!s[i]);
    }
}

pub proof fn lemma_first_true_sound(s: Seq<bool>)
    ensures
        first_true(s) matches Some(i) ==> is_first_true(s, i),
        first_true(s) is None <==> forall|j: int| 0 <= j < s.len() ==> !s[j],
{
    if exists|i: int| is_first_true(s, i) {
        let i = choose|i: int| is_first_true(s, i);
        assert(s[i]);
    } else {
        if !(forall|j: int| 0 <= j < s.len() ==> !s[j]) {
            let j = choose|j: int| 0 <= j < s.len() && s[j];
            lemma_first_true_exists(s, j);
        }
    }
}

proof fn lemma_first_true_exists(s: Seq<bool>, j: int)
    requires
        0 <= j < s.len(),
        s[j],
    ensures
        exists|i: int| is_first_true(s, i),
    decreases j,
{
    if forall|m: int| 0 <= m < j ==> !s[m] {
        assert(is_first_true(s, j));
    } else {
        let m = choose|m: int| 0 <= m < j && s[m];
        lemma_first_true_exists(s, m);
    }
}

} // verus!
