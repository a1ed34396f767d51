use vstd::prelude::*;

verus! {

/// Where the cursor sits relative to the words of the buffer.
#[derive(Clone, Copy, Debug, PartialEq, Eq, Structural)]
pub enum CursorPosition {
    /// Strictly inside the word with this index.
    InWord(usize),
    /// On the left edge of the word with this index: `abc |hi`.
    OnWordLeftEdge(usize),
    /// On the right edge of the word with this index: `abc| hi`.
    OnWordRightEdge(usize),
    /// Touching no word; the nearest words to the left and to the right, if any.
    InSpace(Option<usize>, Option<usize>),
}

/// The classification found by looking at the words from index `i` on, in order, taking the
/// first that matches.
pub open spec fn scan_from(c: usize, words: Seq<(usize, usize)>, i: int) -> CursorPosition
    decreases words.len() - i,
{
    if i < 0 || i >= words.len() {
        CursorPosition::InSpace(Some((words.len() - 1) as usize), None)
    } else if words[i].0 == c {
        CursorPosition::OnWordLeftEdge(i as usize)
    } else if words[i].1 == c {
        CursorPosition::OnWordRightEdge(i as usize)
    } else if words[i].0 < c && c < words[i].1 {
        CursorPosition::InWord(i as usize)
    } else if c < words[i].0 {
        CursorPosition::InSpace(Some((i - 1) as usize), Some(i as usize))
    } else {
        scan_from(c, words, i + 1)
    }
}

/// The classification of cursor `c` against `words`.
pub open spec fn position_of(c: usize, words: Seq<(usize, usize)>) -> CursorPosition {
    if words.len() == 0 {
        CursorPosition::InSpace(None, None)
    } else if c == words[0].0 {
        CursorPosition::OnWordLeftEdge(0)
    } else if c < words[0].0 {
        CursorPosition::InSpace(None, Some(0))
    } else {
        scan_from(c, words, 0)
    }
}

/// The word spans are in ascending order, each non-empty, none overlapping, all within `len`.
pub open spec fn spans_ok(words: Seq<(usize, usize)>, len: int) -> bool {
    &&& forall|i: int| 0 <= i < words.len() ==> #[trigger] words[i].0 < words[i].1 && words[i].1 <= len
    &&& forall|i: int| 0 <= i < words.len() - 1 ==> #[trigger] words[i].1 < words[i + 1].0
}

impl CursorPosition {
    /// Classifies `cursor` against the word spans `words`.
    pub fn get(cursor: usize, words: &[(usize, usize)]) -> (r: CursorPosition)
        ensures
            r == position_of(cursor, words@),
    {
        if words.len() == 0 {
            return CursorPosition::InSpace(None, None);
        } else if cursor == words[0].0 {
            return CursorPosition::OnWordLeftEdge(0);
        } else if cursor < words[0].0 {
            return CursorPosition::InSpace(None, Some(0));
        }
        let mut i: usize = 0;
        while i < words.len()
            invariant
                0 <= i <= words@.len(),
                words@.len() > 0,
                cursor > words@[0].0,
                scan_from(cursor, words@, i as int) == position_of(cursor, words@),
            decreases words@.len() - i,
        {
            let (start, end) = words[i];
            if start == cursor {
                return CursorPosition::OnWordLeftEdge(i);
            } else if end == cursor {
                return CursorPosition::OnWordRightEdge(i);
            } else if start < cursor && cursor < end {
                return CursorPosition::InWord(i);
            } else if cursor < start {
                return CursorPosition::InSpace(Some(i - 1), Some(i));
            }
            i = i + 1;
        }
        CursorPosition::InSpace(Some(words.len() - 1), None)
    }
}

} // verus!
