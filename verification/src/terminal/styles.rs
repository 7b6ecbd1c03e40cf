//! One frame's style table.
use vstd::prelude::*;
use crate::terminal::style::Style;

verus! {

/// The most styles a table holds: an index past it could not be named.
pub const MAX_STYLES: usize = 65535;

/// `table` after interning `style`, and the index that names it.
///
/// A style already held keeps its first index. A new one is appended, except
/// in a full table, where the last slot is reused: one frame reaching that
/// many distinct styles is a runaway, and reusing a slot keeps the frame
/// drawable instead of indexing something else.
pub open spec fn interned(table: Seq<Style>, style: Style) -> (Seq<Style>, u16) {
    match table.index_of_first(style) {
        Some(i) => (table, i as u16),
        None => if table.len() >= MAX_STYLES {
            (table, (MAX_STYLES - 1) as u16)
        } else {
            (table.push(style), table.len() as u16)
        },
    }
}

/// A style interned into a table with room is held at the index it was
/// given, and interning it again gives the same index and leaves the table
/// as it is.
pub proof fn lemma_intern_stable(table: Seq<Style>, style: Style)
    requires
        table.len() < MAX_STYLES,
    ensures
        interned(table, style).0[interned(table, style).1 as int] == style,
        interned(interned(table, style).0, style) == interned(table, style),
{
    table.index_of_first_ensures(style);
    match table.index_of_first(style) {
        Some(i) => {},
        None => {
            let t = table.push(style);
            t.index_of_first_ensures(style);
            assert(t[table.len() as int] == style);
            assert(t.contains(style));
            let j = t.index_of_first(style).unwrap();
            if j < table.len() {
                assert(table[j] == style);
                assert(table.contains(style));
            }
        },
    }
}

/// One frame's style table.
///
/// A linear scan rather than a map: a frame's table is a handful of entries
/// because a terminal row is overwhelmingly one style, so a hash would cost
/// more to build than the scan costs to search.
#[derive(Debug)]
pub struct StyleTable {
    styles: Vec<Style>,
}

impl View for StyleTable {
    type V = Seq<Style>;

    closed spec fn view(&self) -> Seq<Style> {
        self.styles@
    }
}

impl StyleTable {
    pub open spec fn wf(&self) -> bool {
        self@.len() <= MAX_STYLES
    }

    pub fn new() -> (t: StyleTable)
        ensures
            t.wf(),
            t@ == Seq::<Style>::empty(),
    {
        StyleTable { styles: Vec::new() }
    }

    /// The index naming `style`, added to the table if it is new.
    pub fn intern(&mut self, style: Style) -> (index: u16)
        requires
            old(self).wf(),
        ensures
            final(self).wf(),
            (final(self)@, index) == interned(old(self)@, style),
    {
        let mut i: usize = 0;
        while i < self.styles.len()
            invariant
                self@ == old(self)@,
                self.wf(),
                i <= self.styles@.len(),
                forall|j: int| 0 <= j < i ==> self.styles@[j] != style,
            decreases self.styles@.len() - i,
        {
            if self.styles[i] == style {
                proof {
                    self@.index_of_first_ensures(style);
                }
                return i as u16;
            }
            i = i + 1;
        }
        proof {
            self@.index_of_first_ensures(style);
        }
        if self.styles.len() >= MAX_STYLES {
            return (MAX_STYLES - 1) as u16;
        }
        self.styles.push(style);
        (self.styles.len() - 1) as u16
    }

    pub fn len(&self) -> (n: usize)
        ensures
            n == self@.len(),
    {
        self.styles.len()
    }

    pub fn into_vec(self) -> (v: Vec<Style>)
        ensures
            v@ == self@,
    {
        self.styles
    }
}

} // verus!
