//! Lexical matching on the bytes of a path: occurrences of a pattern, ASCII
//! case folding and the last path component.

use vstd::prelude::*;

verus! {

/// The byte that separates the components of a path.
pub const SEPARATOR: u8 = 47;

/// The byte that marks a hidden name when it comes first.
pub const HIDDEN_MARKER: u8 = 46;

/// `b` with an ASCII upper-case letter replaced by its lower-case form.
pub open spec fn lower(b: u8) -> u8 {
    if 65 <= b <= 90 {
        (b + 32) as u8
    } else {
        b
    }
}

/// `bytes` with every ASCII upper-case letter folded to lower case when
/// `fold` is set, and unchanged otherwise.
pub open spec fn folded(bytes: Seq<u8>, fold: bool) -> Seq<u8> {
    if fold {
        bytes.map_values(|b: u8| lower(b))
    } else {
        bytes
    }
}

/// Whether `needle` stands in `hay` starting at index `at`.
pub open spec fn occurs_at(hay: Seq<u8>, needle: Seq<u8>, at: int) -> bool {
    &&& 0 <= at
    &&& at + needle.len() <= hay.len()
    &&& forall|j: int| 0 <= j < needle.len() ==> hay[at + j] == #[trigger] needle[j]
}

/// Whether `needle` stands somewhere in `hay`.
pub open spec fn occurs_in(hay: Seq<u8>, needle: Seq<u8>) -> bool {
    exists|at: int| occurs_at(hay, needle, at)
}

/// Whether `hay` ends with `needle`.
pub open spec fn ends_with(hay: Seq<u8>, needle: Seq<u8>) -> bool {
    occurs_at(hay, needle, hay.len() - needle.len())
}

/// The index just behind the last `mark` in `bytes`, or 0 where there is none.
pub open spec fn tail_start(bytes: Seq<u8>, mark: u8) -> int
    decreases bytes.len(),
{
    if bytes.len() == 0 {
        0
    } else if bytes.last() == mark {
        bytes.len() as int
    } else {
        tail_start(bytes.drop_last(), mark)
    }
}

/// The index at which the last component of `path` begins: just behind the
/// last separator, or 0 where there is none.
pub open spec fn last_component_start(path: Seq<u8>) -> int {
    tail_start(path, SEPARATOR)
}

/// The last component of `path`: what follows its last separator, or all of
/// it where there is none.
pub open spec fn last_component(path: Seq<u8>) -> Seq<u8> {
    path.subrange(last_component_start(path), path.len() as int)
}

/// The tail starts inside the bytes, behind a mark or at the front, and holds
/// no mark itself.
pub proof fn lemma_tail_start(bytes: Seq<u8>, mark: u8)
    ensures
        0 <= tail_start(bytes, mark) <= bytes.len(),
        tail_start(bytes, mark) > 0 ==> bytes[tail_start(bytes, mark) - 1] == mark,
        forall|i: int| tail_start(bytes, mark) <= i < bytes.len() ==> bytes[i] != mark,
    decreases bytes.len(),
{
    if bytes.len() > 0 && bytes.last() != mark {
        let front = bytes.drop_last();
        lemma_tail_start(front, mark);
        assert forall|i: int| tail_start(bytes, mark) <= i < bytes.len() implies bytes[i]
            != mark by {
            if i < front.len() {
                assert(front[i] == bytes[i]);
            }
        }
    }
}

/// An index behind which no mark stands, and which is 0 or follows one, is
/// where the tail starts.
pub proof fn lemma_tail_start_unique(bytes: Seq<u8>, mark: u8, start: int)
    requires
        0 <= start <= bytes.len(),
        start > 0 ==> bytes[start - 1] == mark,
        forall|i: int| start <= i < bytes.len() ==> bytes[i] != mark,
    ensures
        tail_start(bytes, mark) == start,
    decreases bytes.len(),
{
    if bytes.len() > 0 && bytes.last() != mark {
        if start == bytes.len() {
            assert(bytes[start - 1] == bytes.last());
        } else {
            lemma_tail_start_unique(bytes.drop_last(), mark, start);
        }
    } else if bytes.len() > 0 {
        if start < bytes.len() {
            assert(bytes[bytes.len() - 1] != mark);
        }
    }
}

/// `b` folded to lower case.
pub fn lower_byte(b: u8) -> (l: u8)
    ensures
        l == lower(b),
{
    if 65 <= b && b <= 90 {
        b + 32
    } else {
        b
    }
}

/// Whether `needle` stands in `hay` at index `at`, `hay` being folded to
/// lower case first when `fold` is set.
pub fn matches_at(hay: &[u8], needle: &[u8], at: usize, fold: bool) -> (found: bool)
    ensures
        found == occurs_at(folded(hay@, fold), needle@, at as int),
{
    if at > hay.len() || needle.len() > hay.len() - at {
        return false;
    }
    let mut j: usize = 0;
    while j < needle.len()
        invariant
            j <= needle.len(),
            at + needle.len() <= hay.len(),
            folded(hay@, fold).len() == hay@.len(),
            forall|k: int| 0 <= k < j ==> folded(hay@, fold)[at + k] == #[trigger] needle@[k],
        decreases needle.len() - j,
    {
        let h: u8 = if fold {
            lower_byte(hay[at + j])
        } else {
            hay[at + j]
        };
        if h != needle[j] {
            assert(folded(hay@, fold)[at + j] != needle@[j as int]);
            return false;
        }
        j += 1;
    }
    true
}

/// Whether `needle` stands somewhere in `hay` at or behind index `from`,
/// `hay` being folded to lower case first when `fold` is set.
pub fn find_from(hay: &[u8], needle: &[u8], from: usize, fold: bool) -> (found: bool)
    ensures
        found == (exists|at: int| from <= at && occurs_at(folded(hay@, fold), needle@, at)),
{
    if from > hay.len() || needle.len() > hay.len() - from {
        assert(folded(hay@, fold).len() == hay@.len());
        return false;
    }
    let last: usize = hay.len() - needle.len();
    let mut at: usize = from;
    while at <= last
        invariant
            from <= at <= last + 1,
            last == hay.len() - needle.len(),
            folded(hay@, fold).len() == hay@.len(),
            forall|k: int| from <= k < at ==> !occurs_at(folded(hay@, fold), needle@, k),
        decreases last + 1 - at,
    {
        if matches_at(hay, needle, at, fold) {
            return true;
        }
        at += 1;
    }
    false
}

/// Whether `needle` stands somewhere in `hay`.
pub fn contains(hay: &[u8], needle: &[u8]) -> (found: bool)
    ensures
        found == occurs_in(hay@, needle@),
{
    let found = find_from(hay, needle, 0, false);
    proof {
        if occurs_in(hay@, needle@) {
            let at = choose|at: int| occurs_at(hay@, needle@, at);
            assert(0 <= at && occurs_at(folded(hay@, false), needle@, at));
        }
    }
    found
}

/// Whether `hay` ends with `needle`.
pub fn has_suffix(hay: &[u8], needle: &[u8]) -> (found: bool)
    ensures
        found == ends_with(hay@, needle@),
{
    if needle.len() > hay.len() {
        return false;
    }
    matches_at(hay, needle, hay.len() - needle.len(), false)
}

/// The index just behind the last `mark` in `bytes`, or 0 where there is none.
pub fn tail_index(bytes: &[u8], mark: u8) -> (start: usize)
    ensures
        start == tail_start(bytes@, mark),
        start <= bytes.len(),
{
    let mut start: usize = bytes.len();
    while start > 0 && bytes[start - 1] != mark
        invariant
            start <= bytes.len(),
            forall|i: int| start <= i < bytes.len() ==> bytes@[i] != mark,
        decreases start,
    {
        start -= 1;
    }
    proof {
        lemma_tail_start_unique(bytes@, mark, start as int);
    }
    start
}

/// The index at which the last component of `path` begins.
pub fn last_component_index(path: &[u8]) -> (start: usize)
    ensures
        start == last_component_start(path@),
        start <= path.len(),
{
    tail_index(path, SEPARATOR)
}

} // verus!
