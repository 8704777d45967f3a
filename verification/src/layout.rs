//! The measures of a report drawn as a table: how wide it is, how wide its
//! columns are, and how a text that is too long for its column is cut.

use vstd::prelude::*;
use vstd::string::{StrSliceExecFns, StringExecFns};

verus! {

/// The first `n` characters of a text, or all of it where it has fewer.
pub open spec fn prefix(text: Seq<char>, n: nat) -> Seq<char> {
    if n <= text.len() {
        text.subrange(0, n as int)
    } else {
        text
    }
}

/// The width in which a table is drawn: that of the terminal where it is
/// known, and never more than `widest`.
pub fn table_width(dimensions: Option<(usize, usize)>, widest: usize) -> (width: usize)
    ensures
        width == match dimensions {
            Some((columns, _)) => if columns > widest {
                widest
            } else {
                columns
            },
            None => widest,
        },
{
    match dimensions {
        Some((columns, _)) => if columns > widest {
            widest
        } else {
            columns
        },
        None => widest,
    }
}

/// The width of one of `items` columns of equal width.
pub fn item_width(width: usize, items: usize) -> (item: usize)
    requires
        items > 0,
    ensures
        item == width / items,
{
    width / items
}

/// The width of the author column of a table of five parts: two of them.
pub fn author_width(width: usize) -> (author: usize)
    ensures
        author == 2 * (width / 5),
{
    2 * (width / 5)
}

/// The share of one of `items` columns of equal width, widened by
/// `(share - 4) / items - 1`: the width of a column beside a narrow first
/// column.
pub open spec fn widened(width: int, items: int) -> int {
    width / items + (width / items - 4) / items - 1
}

/// Whether a table of `width` is wide enough for widened columns.
pub open spec fn widens(width: int, items: int) -> bool {
    width / items >= 4 && (width / items - 4) / items >= 1 && widened(width, items) <= usize::MAX
}

/// The width of a column beside a narrow first column, and none where the
/// table is too narrow for one.
pub fn wide_item_width(width: usize, items: usize) -> (item: Option<usize>)
    requires
        items > 0,
    ensures
        match item {
            Some(w) => widens(width as int, items as int) && w == widened(
                width as int,
                items as int,
            ),
            None => !widens(width as int, items as int),
        },
{
    let share = width / items;
    if share < 4 {
        return None;
    }
    let gain = (share - 4) / items;
    if gain < 1 {
        return None;
    }
    share.checked_add(gain - 1)
}

/// The first `len` characters of `text`, or all of it where it has fewer.
pub fn first_chars(text: &str, len: usize) -> (head: String)
    ensures
        head@ == prefix(text@, len as nat),
{
    let n = text.unicode_len();
    if len <= n {
        text.substring_char(0, len).to_owned()
    } else {
        text.to_owned()
    }
}

/// A text cut to fit a column: a text of more than `width` bytes is cut to
/// its first `width - 3` characters and ends in three dots; any other is left
/// as it is. None where a text must be cut and the column is narrower than
/// the dots.
pub fn shorten(text: &str, width: usize) -> (cut: Option<String>)
    ensures
        match cut {
            Some(cut) => if text.len() > width {
                width >= 3 && cut@ == prefix(text@, (width - 3) as nat) + "..."@
            } else {
                cut@ == text@
            },
            None => text.len() > width && width < 3,
        },
{
    if text.len() > width {
        if width < 3 {
            return None;
        }
        let mut cut = first_chars(text, width - 3);
        cut.append("...");
        Some(cut)
    } else {
        Some(text.to_owned())
    }
}

/// No two of the ids begin with the same `len` characters.
pub open spec fn distinct_prefixes(ids: Seq<String>, len: nat) -> bool {
    forall|i: int, j: int|
        0 <= i < ids.len() && 0 <= j < ids.len() && i != j ==> prefix(ids[i]@, len) != prefix(
            ids[j]@,
            len,
        )
}

/// Whether the first `len` characters are enough to tell the ids apart.
pub fn unique_short_ids(ids: &Vec<String>, len: usize) -> (unique: bool)
    ensures
        unique == distinct_prefixes(ids@, len as nat),
{
    let n = ids.len();
    let mut i: usize = 0;
    while i < n
        invariant
            i <= n,
            n == ids@.len(),
            forall|a: int, b: int|
                0 <= a < i && 0 <= b < n && a != b ==> prefix(ids@[a]@, len as nat) != prefix(
                    ids@[b]@,
                    len as nat,
                ),
        decreases n - i,
    {
        let short = first_chars(ids[i].as_str(), len);
        let mut j: usize = 0;
        while j < n
            invariant
                j <= n,
                i < n,
                n == ids@.len(),
                short@ == prefix(ids@[i as int]@, len as nat),
                forall|b: int|
                    0 <= b < j && b != i ==> prefix(ids@[i as int]@, len as nat) != prefix(
                        ids@[b]@,
                        len as nat,
                    ),
            decreases n - j,
        {
            if i != j {
                let other = first_chars(ids[j].as_str(), len);
                if short == other {
                    return false;
                }
            }
            j += 1;
        }
        i += 1;
    }
    true
}

} // verus!
