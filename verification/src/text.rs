//! Text helpers: character access, equality, ordering and path checks.

use vstd::prelude::*;

verus! {

/// Collects the characters of `s` in order.
pub fn chars_of(s: &str) -> (res: Vec<char>)
    ensures
        res@ == s@,
{
    let mut res: Vec<char> = Vec::new();
    for c in it: s.chars()
        invariant
            res@ == it.seq().take(it.index() as int),
            it.seq() == s@,
    {
        res.push(c);
    }
    res
}

} // verus!

verus! {

/// Whether two strings hold the same characters.
pub fn str_eq(a: &str, b: &str) -> (res: bool)
    ensures
        res == (a@ == b@),
{
    let x = a.to_owned();
    let y = b.to_owned();
    x == y
}

/// Whether `ch` is a Unicode control character (general category `Cc`,
/// `U+0000..=U+001F` and `U+007F..=U+009F`), as `char::is_control` decides it.
pub open spec fn spec_is_control(ch: char) -> bool {
    (ch as u32) <= 0x1F || (0x7F <= (ch as u32) && (ch as u32) <= 0x9F)
}

/// Reports whether `ch` is a control character.
pub fn is_control(ch: char) -> (res: bool)
    ensures
        res == spec_is_control(ch),
{
    let code = ch as u32;
    code <= 0x1F || (0x7F <= code && code <= 0x9F)
}

/// Whether one of the `/`-separated parts of `s` is exactly `..`.
pub open spec fn has_parent_part(s: Seq<char>) -> bool {
    exists|i: int|
        #![trigger s[i], s[i + 1]]
        0 <= i && i + 2 <= s.len() && s[i] == '.' && s[i + 1] == '.' && (i == 0 || s[i - 1] == '/')
            && (i + 2 == s.len() || s[i + 2] == '/')
}

/// A non-empty relative path: no leading `/`, no `\` or `:`, no `..` part and
/// no control character.
pub open spec fn spec_valid_relative_path(s: Seq<char>) -> bool {
    &&& s.len() > 0
    &&& s[0] != '/'
    &&& !s.contains('\\')
    &&& !s.contains(':')
    &&& !has_parent_part(s)
    &&& forall|i: int| 0 <= i < s.len() ==> !spec_is_control(#[trigger] s[i])
}

/// Reports whether a configured path is a safe, non-empty relative path.
pub fn valid_relative_path(path: &str) -> (res: bool)
    ensures
        res == spec_valid_relative_path(path@),
{
    let cs = chars_of(path);
    let n = cs.len();
    if n == 0 {
        return false;
    }
    if cs[0] == '/' {
        return false;
    }
    let mut i: usize = 0;
    while i < n
        invariant
            n == cs@.len(),
            cs@ == path@,
            0 <= i <= n,
            forall|j: int| 0 <= j < i ==> cs@[j] != '\\' && cs@[j] != ':' && !spec_is_control(
                #[trigger] cs@[j],
            ),
            forall|j: int|
                #![trigger cs@[j], cs@[j + 1]]
                0 <= j && j + 2 <= n && j < i ==> !(cs@[j] == '.' && cs@[j + 1] == '.' && (j == 0
                    || cs@[j - 1] == '/') && (j + 2 == n || cs@[j + 2] == '/')),
        decreases n - i,
    {
        let c = cs[i];
        if c == '\\' || c == ':' || is_control(c) {
            assert(cs@[i as int] == c);
            assert(cs@.contains('\\') || cs@.contains(':') || !(forall|j: int|
                0 <= j < cs@.len() ==> !spec_is_control(#[trigger] cs@[j])));
            return false;
        }
        if c == '.' && i + 1 < n && cs[i + 1] == '.' && (i == 0 || cs[i - 1] == '/') && (i + 2 == n
            || cs[i + 2] == '/') {
            assert(has_parent_part(cs@)) by {
                let k = i as int;
                assert(cs@[k] == '.' && cs@[k + 1] == '.');
            }
            return false;
        }
        i = i + 1;
    }
    assert(!cs@.contains('\\')) by {
        if cs@.contains('\\') {
            let j = choose|j: int| 0 <= j < cs@.len() && cs@[j] == '\\';
            assert(cs@[j] != '\\');
        }
    }
    assert(!cs@.contains(':')) by {
        if cs@.contains(':') {
            let j = choose|j: int| 0 <= j < cs@.len() && cs@[j] == ':';
            assert(cs@[j] != ':');
        }
    }
    true
}

/// Whether some value of `values` occurs twice.
pub open spec fn spec_has_duplicates(values: Seq<String>) -> bool {
    exists|i: int, j: int| 0 <= i < j < values.len() && values[i]@ == values[j]@
}

/// Returns whether a list repeats a value, without modifying it.
pub fn has_duplicates(values: &Vec<String>) -> (res: bool)
    ensures
        res == spec_has_duplicates(values@),
{
    let n = values.len();
    let mut j: usize = 0;
    while j < n
        invariant
            n == values@.len(),
            0 <= j <= n,
            forall|a: int, b: int| 0 <= a < b < j ==> values@[a]@ != values@[b]@,
        decreases n - j,
    {
        let mut i: usize = 0;
        while i < j
            invariant
                n == values@.len(),
                0 <= i <= j < n,
                forall|a: int| 0 <= a < i ==> values@[a]@ != values@[j as int]@,
            decreases j - i,
        {
            if values[i] == values[j] {
                assert(values@[i as int]@ == values@[j as int]@);
                return true;
            }
            i = i + 1;
        }
        j = j + 1;
    }
    false
}

} // verus!

verus! {

/// Lexicographic order of character sequences by code point, which is the
/// order `String`'s `Ord` gives (UTF-8 preserves code point order).
pub open spec fn seq_lt(a: Seq<char>, b: Seq<char>) -> bool
    decreases a.len(),
{
    if a.len() == 0 {
        b.len() > 0
    } else if b.len() == 0 {
        false
    } else if a[0] != b[0] {
        a[0] < b[0]
    } else {
        seq_lt(a.drop_first(), b.drop_first())
    }
}

/// No sequence precedes itself.
pub proof fn lemma_seq_lt_irreflexive(a: Seq<char>)
    ensures
        !seq_lt(a, a),
    decreases a.len(),
{
    if a.len() > 0 {
        lemma_seq_lt_irreflexive(a.drop_first());
    }
}

/// Of two distinct sequences, one precedes the other.
pub proof fn lemma_seq_lt_total(a: Seq<char>, b: Seq<char>)
    ensures
        a == b || seq_lt(a, b) || seq_lt(b, a),
    decreases a.len(),
{
    if a.len() > 0 && b.len() > 0 {
        if a[0] == b[0] {
            lemma_seq_lt_total(a.drop_first(), b.drop_first());
            if a.drop_first() == b.drop_first() {
                assert(a =~= seq![a[0]] + a.drop_first());
                assert(b =~= seq![b[0]] + b.drop_first());
            }
        }
    } else if a.len() == 0 && b.len() == 0 {
        assert(a =~= b);
    }
}

/// The order is transitive.
pub proof fn lemma_seq_lt_transitive(a: Seq<char>, b: Seq<char>, c: Seq<char>)
    requires
        seq_lt(a, b),
        seq_lt(b, c),
    ensures
        seq_lt(a, c),
    decreases a.len(),
{
    if a.len() > 0 && b.len() > 0 && c.len() > 0 {
        if a[0] == b[0] && b[0] == c[0] {
            lemma_seq_lt_transitive(a.drop_first(), b.drop_first(), c.drop_first());
        }
    }
}

/// Whether `a` precedes `b` in `String` order.
pub fn string_lt(a: &String, b: &String) -> (res: bool)
    ensures
        res == seq_lt(a@, b@),
{
    let x = chars_of(a.as_str());
    let y = chars_of(b.as_str());
    let mut i: usize = 0;
    assert(a@.skip(0) =~= a@);
    assert(b@.skip(0) =~= b@);
    while i < x.len() && i < y.len()
        invariant
            x@ == a@,
            y@ == b@,
            0 <= i <= x@.len(),
            i <= y@.len(),
            seq_lt(a@, b@) == seq_lt(a@.skip(i as int), b@.skip(i as int)),
        decreases x@.len() - i,
    {
        if x[i] != y[i] {
            assert(a@.skip(i as int)[0] == x@[i as int]);
            assert(b@.skip(i as int)[0] == y@[i as int]);
            return x[i] < y[i];
        }
        assert(a@.skip(i as int).drop_first() =~= a@.skip(i + 1));
        assert(b@.skip(i as int).drop_first() =~= b@.skip(i + 1));
        i = i + 1;
    }
    i < y.len()
}

} // verus!
