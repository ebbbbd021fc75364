//! Ascending lists of distinct names, kept as `BTreeSet` and `BTreeMap`
//! keep their keys.

use vstd::prelude::*;

use crate::text::{lemma_seq_lt_total, lemma_seq_lt_transitive, seq_lt, string_lt};

verus! {

/// Whether a sequence of names is strictly ascending.
pub open spec fn sorted_names(s: Seq<Seq<char>>) -> bool {
    forall|i: int, j: int| 0 <= i < j < s.len() ==> seq_lt(s[i], s[j])
}

/// The characters of each string.
pub open spec fn string_views(v: Seq<String>) -> Seq<Seq<char>> {
    v.map_values(|s: String| s@)
}

/// Inserting a name between its smaller and larger neighbours keeps a
/// sequence strictly ascending.
pub proof fn lemma_insert_sorted(s: Seq<Seq<char>>, pos: int, x: Seq<char>)
    requires
        sorted_names(s),
        0 <= pos <= s.len(),
        forall|i: int| 0 <= i < pos ==> seq_lt(#[trigger] s[i], x),
        pos < s.len() ==> seq_lt(x, s[pos]),
    ensures
        sorted_names(s.insert(pos, x)),
{
    let t = s.insert(pos, x);
    assert forall|i: int, j: int| 0 <= i < j < t.len() implies seq_lt(t[i], t[j]) by {
        if j < pos {
        } else if j == pos {
        } else if i < pos {
            if j - 1 > pos {
                lemma_seq_lt_transitive(x, s[pos], s[j - 1]);
            }
            lemma_seq_lt_transitive(s[i], x, s[j - 1]);
        } else if i == pos {
            if j - 1 > pos {
                lemma_seq_lt_transitive(x, s[pos], s[j - 1]);
            }
        } else {
        }
    }
}

/// Finds where `name` belongs in an ascending list: the first position whose
/// element does not precede it.
fn sorted_position(names: &Vec<String>, name: &String) -> (res: usize)
    requires
        sorted_names(string_views(names@)),
    ensures
        res <= names@.len(),
        forall|i: int| 0 <= i < res ==> seq_lt((#[trigger] names@[i])@, name@),
        res < names@.len() ==> !seq_lt(names@[res as int]@, name@),
{
    let n = names.len();
    let mut pos: usize = 0;
    while pos < n && string_lt(&names[pos], name)
        invariant
            n == names@.len(),
            0 <= pos <= n,
            forall|i: int| 0 <= i < pos ==> seq_lt((#[trigger] names@[i])@, name@),
        decreases n - pos,
    {
        pos = pos + 1;
    }
    pos
}

/// Adds `name` to an ascending list of distinct names, as `BTreeSet::insert`.
pub fn insert_name(names: &mut Vec<String>, name: &String)
    requires
        sorted_names(string_views(old(names)@)),
    ensures
        sorted_names(string_views(final(names)@)),
        forall|x: Seq<char>|
            string_views(final(names)@).contains(x) <==> (string_views(old(names)@).contains(x) || x
                == name@),
{
    let ghost old_views = string_views(names@);
    let pos = sorted_position(names, name);
    if pos < names.len() && names[pos] == *name {
        assert(old_views[pos as int] == name@);
        return;
    }
    proof {
        if pos < names@.len() {
            lemma_seq_lt_total(names@[pos as int]@, name@);
        }
        lemma_insert_sorted(old_views, pos as int, name@);
    }
    names.insert(pos, name.clone());
    proof {
        assert(string_views(names@) =~= old_views.insert(pos as int, name@));
        assert forall|x: Seq<char>|
            string_views(names@).contains(x) <==> (old_views.contains(x) || x == name@) by {
            if old_views.contains(x) {
                let k = choose|k: int| 0 <= k < old_views.len() && old_views[k] == x;
                if k < pos {
                    assert(string_views(names@)[k] == x);
                } else {
                    assert(string_views(names@)[k + 1] == x);
                }
            }
            if x == name@ {
                assert(string_views(names@)[pos as int] == x);
            }
            if string_views(names@).contains(x) {
                let k = choose|k: int| 0 <= k < string_views(names@).len() && string_views(names@)[k] == x;
                if k < pos {
                    assert(old_views[k] == x);
                } else if k > pos {
                    assert(old_views[k - 1] == x);
                }
            }
        }
        assert(old_views == string_views(old(names)@));
        assert(forall|x: Seq<char>|
            string_views(names@).contains(x) <==> (string_views(old(names)@).contains(x) || x == name@));
    }
}

/// Reports whether `list` holds a string equal to `s`.
pub fn contains_string(list: &Vec<String>, s: &String) -> (res: bool)
    ensures
        res == string_views(list@).contains(s@),
{
    let n = list.len();
    let mut k: usize = 0;
    while k < n
        invariant
            n == list@.len(),
            0 <= k <= n,
            forall|j: int| 0 <= j < k ==> (#[trigger] list@[j])@ != s@,
        decreases n - k,
    {
        if list[k] == *s {
            assert(string_views(list@)[k as int] == s@);
            return true;
        }
        k = k + 1;
    }
    proof {
        if string_views(list@).contains(s@) {
            let j = choose|j: int| 0 <= j < string_views(list@).len() && string_views(list@)[j] == s@;
            assert(list@[j]@ == s@);
        }
    }
    false
}

/// Appends copies of `names`.
pub fn push_names(out: &mut Vec<String>, names: &Vec<String>)
    ensures
        final(out)@ == old(out)@ + names@,
{
    let ghost start = out@;
    let n = names.len();
    let mut k: usize = 0;
    while k < n
        invariant
            n == names@.len(),
            0 <= k <= n,
            out@ == start + names@.take(k as int),
        decreases n - k,
    {
        out.push(names[k].clone());
        proof {
            assert(start + names@.take(k + 1) =~= (start + names@.take(k as int)).push(names@[k as int]));
        }
        k = k + 1;
    }
    proof {
        assert(names@.take(n as int) =~= names@);
    }
}

} // verus!
