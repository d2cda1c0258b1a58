//! The compact textual form of a right: `action:possession/resource`.
//!
//! The grammar is three non-empty runs of word characters (ASCII letters,
//! digits, underscore) joined by a literal colon and a literal slash, with
//! nothing before, between or after them.  A string that deviates from this
//! shape in any way is rejected; there are no partial matches.

use vstd::prelude::*;
use vstd::string::StrSliceExecFns;

use crate::action_of;
use crate::possession_of;
use crate::right::RightV;

verus! {

/// Word characters: ASCII letters, digits and the underscore.
pub open spec fn is_word_char(c: char) -> bool {
    ||| 97 <= c as u32 && c as u32 <= 122  // 'a' ..= 'z'
    ||| 65 <= c as u32 && c as u32 <= 90  // 'A' ..= 'Z'
    ||| 48 <= c as u32 && c as u32 <= 57  // '0' ..= '9'
    ||| c as u32 == 95  // '_'
}

/// A non-empty run of word characters.
pub open spec fn is_word(s: Seq<char>) -> bool {
    s.len() >= 1 && forall|m: int| 0 <= m < s.len() ==> is_word_char(#[trigger] s[m])
}

/// The separator positions of a well-formed pattern: the colon at `i`, the
/// slash at `j`, and the three segments around them non-empty words.
pub open spec fn valid_split(s: Seq<char>, i: int, j: int) -> bool {
    &&& 0 < i
    &&& i + 1 < j
    &&& j + 1 < s.len()
    &&& s[i] == ':'
    &&& s[j] == '/'
    &&& is_word(s.subrange(0, i))
    &&& is_word(s.subrange(i + 1, j))
    &&& is_word(s.subrange(j + 1, s.len() as int))
}

/// Whether the whole string has the exact three-segment shape.
pub open spec fn pattern_ok(s: Seq<char>) -> bool {
    exists|ij: (int, int)| valid_split(s, ij.0, ij.1)
}

/// The separator positions of a well-formed pattern.  There is only one
/// pair of them ([`lemma_split_unique`]), so the choice is determined.
pub open spec fn split_of(s: Seq<char>) -> (int, int) {
    choose|ij: (int, int)| valid_split(s, ij.0, ij.1)
}

/// The action token of a well-formed pattern.
pub open spec fn pattern_action(s: Seq<char>) -> Seq<char> {
    s.subrange(0, split_of(s).0)
}

/// The possession token of a well-formed pattern.
pub open spec fn pattern_possession(s: Seq<char>) -> Seq<char> {
    s.subrange(split_of(s).0 + 1, split_of(s).1)
}

/// The resource token of a well-formed pattern.
pub open spec fn pattern_resource(s: Seq<char>) -> Seq<char> {
    s.subrange(split_of(s).1 + 1, s.len() as int)
}

/// The right a well-formed pattern denotes: its tokens resolved exactly as
/// `Right::new` resolves them.
pub open spec fn parsed_right(s: Seq<char>) -> RightV {
    RightV {
        action: action_of(pattern_action(s)),
        resource: pattern_resource(s),
        possession: possession_of(pattern_possession(s)),
    }
}

/// Every position of a well-formed pattern other than the two separators
/// holds a word character.
proof fn lemma_split_chars(s: Seq<char>, i: int, j: int)
    requires
        valid_split(s, i, j),
    ensures
        forall|m: int| 0 <= m < s.len() && m != i && m != j ==> is_word_char(#[trigger] s[m]),
{
    assert forall|m: int| 0 <= m < s.len() && m != i && m != j implies is_word_char(
        #[trigger] s[m],
    ) by {
        if m < i {
            assert(s.subrange(0, i)[m] == s[m]);
        } else if m < j {
            assert(s.subrange(i + 1, j)[m - (i + 1)] == s[m]);
        } else {
            assert(s.subrange(j + 1, s.len() as int)[m - (j + 1)] == s[m]);
        }
    }
}

/// A pattern splits in at most one way: word characters exclude the
/// separators, so the string holds exactly one colon and one slash.
pub proof fn lemma_split_unique(s: Seq<char>, i1: int, j1: int, i2: int, j2: int)
    requires
        valid_split(s, i1, j1),
        valid_split(s, i2, j2),
    ensures
        i1 == i2,
        j1 == j2,
{
    lemma_split_chars(s, i1, j1);
    lemma_split_chars(s, i2, j2);
    assert(!is_word_char(':'));
    assert(!is_word_char('/'));
    if i1 != i2 {
        // the other split's colon would have to be a word character or the
        // first split's slash, and it is neither
        assert(s[i2] == ':' && s[j1] == '/');
        assert(false);
    }
    if j1 != j2 {
        assert(s[j2] == '/' && s[i1] == ':');
        assert(false);
    }
}

/// In a well-formed pattern, the colon stands at the first position that
/// does not hold a word character.
proof fn lemma_first_nonword_is_colon(s: Seq<char>, w: int)
    requires
        pattern_ok(s),
        0 <= w <= s.len(),
        forall|m: int| 0 <= m < w ==> is_word_char(#[trigger] s[m]),
        w == s.len() || !is_word_char(s[w]),
    ensures
        valid_split(s, split_of(s).0, split_of(s).1),
        split_of(s).0 == w,
{
    let ij = split_of(s);
    assert(valid_split(s, ij.0, ij.1));
    let i = ij.0;
    assert(!is_word_char(':'));
    if i < w {
        assert(is_word_char(s[i]));
        assert(false);
    }
    if i > w {
        // w would sit inside the action segment
        assert(s.subrange(0, i)[w] == s[w]);
        assert(is_word_char(s[w]));
        assert(false);
    }
}

/// In a well-formed pattern whose colon is at `i`, the slash stands at the
/// first position after the colon that does not hold a word character.
proof fn lemma_next_nonword_is_slash(s: Seq<char>, w: int)
    requires
        pattern_ok(s),
        valid_split(s, split_of(s).0, split_of(s).1),
        split_of(s).0 + 1 <= w <= s.len(),
        forall|m: int| split_of(s).0 + 1 <= m < w ==> is_word_char(#[trigger] s[m]),
        w == s.len() || !is_word_char(s[w]),
    ensures
        split_of(s).1 == w,
{
    let i = split_of(s).0;
    let j = split_of(s).1;
    assert(!is_word_char('/'));
    if j < w {
        assert(is_word_char(s[j]));
        assert(false);
    }
    if j > w {
        // w would sit inside the possession segment
        assert(s.subrange(i + 1, j)[w - (i + 1)] == s[w]);
        assert(is_word_char(s[w]));
        assert(false);
    }
}

/// In a well-formed pattern whose slash is at `j`, word characters run from
/// `j + 1` to the very end, and there is at least one of them.
proof fn lemma_resource_runs_to_end(s: Seq<char>, w: int)
    requires
        pattern_ok(s),
        valid_split(s, split_of(s).0, split_of(s).1),
        split_of(s).1 + 1 <= w <= s.len(),
        forall|m: int| split_of(s).1 + 1 <= m < w ==> is_word_char(#[trigger] s[m]),
        w == s.len() || !is_word_char(s[w]),
    ensures
        w == s.len(),
        w > split_of(s).1 + 1,
{
    let j = split_of(s).1;
    if w < s.len() {
        assert(s.subrange(j + 1, s.len() as int)[w - (j + 1)] == s[w]);
        assert(is_word_char(s[w]));
        assert(false);
    }
}

fn word_char(c: char) -> (b: bool)
    ensures
        b == is_word_char(c),
{
    let u: u32 = c as u32;
    (97 <= u && u <= 122) || (65 <= u && u <= 90) || (48 <= u && u <= 57) || u == 95
}

/// Splits a pattern into its three tokens, if and only if it has the exact
/// `action:possession/resource` shape.
pub(crate) fn split_pattern(s: &str) -> (res: Option<(String, String, String)>)
    ensures
        res is Some <==> pattern_ok(s@),
        res matches Some(t) ==> t.0@ == pattern_action(s@) && t.1@ == pattern_possession(s@)
            && t.2@ == pattern_resource(s@),
{
    let n: usize = s.unicode_len();
    let mut i: usize = 0;
    while i < n && word_char(s.get_char(i))
        invariant
            n == s@.len(),
            i <= n,
            forall|m: int| 0 <= m < i ==> is_word_char(#[trigger] s@[m]),
        decreases n - i,
    {
        i += 1;
    }
    // i is the first position that holds no word character, or the end
    if i == 0 || i == n || s.get_char(i) != ':' {
        proof {
            if pattern_ok(s@) {
                lemma_first_nonword_is_colon(s@, i as int);
            }
        }
        return None;
    }
    let mut j: usize = i + 1;
    while j < n && word_char(s.get_char(j))
        invariant
            n == s@.len(),
            i < j <= n,
            forall|m: int| i < m < j ==> is_word_char(#[trigger] s@[m]),
        decreases n - j,
    {
        j += 1;
    }
    if j == i + 1 || j == n || s.get_char(j) != '/' {
        proof {
            if pattern_ok(s@) {
                lemma_first_nonword_is_colon(s@, i as int);
                lemma_next_nonword_is_slash(s@, j as int);
            }
        }
        return None;
    }
    let mut k: usize = j + 1;
    while k < n && word_char(s.get_char(k))
        invariant
            n == s@.len(),
            j < k <= n,
            forall|m: int| j < m < k ==> is_word_char(#[trigger] s@[m]),
        decreases n - k,
    {
        k += 1;
    }
    if k == j + 1 || k < n {
        proof {
            if pattern_ok(s@) {
                lemma_first_nonword_is_colon(s@, i as int);
                lemma_next_nonword_is_slash(s@, j as int);
                lemma_resource_runs_to_end(s@, k as int);
            }
        }
        return None;
    }
    proof {
        let gi = i as int;
        let gj = j as int;
        assert(s@.subrange(0, gi).len() == gi);
        assert forall|m: int| 0 <= m < gi implies is_word_char(
            #[trigger] s@.subrange(0, gi)[m],
        ) by {
            assert(s@.subrange(0, gi)[m] == s@[m]);
        }
        assert forall|m: int| 0 <= m < gj - (gi + 1) implies is_word_char(
            #[trigger] s@.subrange(gi + 1, gj)[m],
        ) by {
            assert(s@.subrange(gi + 1, gj)[m] == s@[m + gi + 1]);
        }
        assert forall|m: int| 0 <= m < s@.len() - (gj + 1) implies is_word_char(
            #[trigger] s@.subrange(gj + 1, s@.len() as int)[m],
        ) by {
            assert(s@.subrange(gj + 1, s@.len() as int)[m] == s@[m + gj + 1]);
        }
        assert(valid_split(s@, gi, gj));
        assert(valid_split(s@, ((gi, gj)).0, ((gi, gj)).1));
        assert(pattern_ok(s@));
        let ij = split_of(s@);
        assert(valid_split(s@, ij.0, ij.1));
        lemma_split_unique(s@, gi, gj, ij.0, ij.1);
    }
    let action = s.substring_char(0, i).to_owned();
    let possession = s.substring_char(i + 1, j).to_owned();
    let resource = s.substring_char(j + 1, k).to_owned();
    Some((action, possession, resource))
}

/// Round trip: a pattern assembled from three word tokens is well formed
/// and parses back to exactly the right those tokens denote.
pub proof fn lemma_pattern_round_trip(a: Seq<char>, p: Seq<char>, r: Seq<char>)
    requires
        is_word(a),
        is_word(p),
        is_word(r),
    ensures
        pattern_ok(a + seq![':'] + p + seq!['/'] + r),
        parsed_right(a + seq![':'] + p + seq!['/'] + r) == (RightV {
            action: action_of(a),
            resource: r,
            possession: possession_of(p),
        }),
{
    let s = a + seq![':'] + p + seq!['/'] + r;
    let i: int = a.len() as int;
    let j: int = a.len() + 1 + p.len() as int;
    assert(s.len() == a.len() + p.len() + r.len() + 2);
    assert(s[i] == ':');
    assert(s[j] == '/');
    assert(s.subrange(0, i) =~= a);
    assert(s.subrange(i + 1, j) =~= p);
    assert(s.subrange(j + 1, s.len() as int) =~= r);
    assert(valid_split(s, i, j));
    assert(valid_split(s, ((i, j)).0, ((i, j)).1));
    assert(pattern_ok(s));
    let ij = split_of(s);
    assert(valid_split(s, ij.0, ij.1));
    lemma_split_unique(s, i, j, ij.0, ij.1);
    assert(pattern_action(s) == a);
    assert(pattern_possession(s) == p);
    assert(pattern_resource(s) == r);
}

} // verus!
