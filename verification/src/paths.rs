//! Paths as text, read the way `std::path::Path` reads a Unix path.
use vstd::prelude::*;
use crate::text::{find_last, index_of, last_index_of, slice_of, split_char, split_on};

verus! {

/// The last piece that names something: empty pieces (doubled or trailing
/// separators) and `.` pieces say nothing about which file is meant.
pub open spec fn last_meaningful(pieces: Seq<Seq<char>>) -> Option<Seq<char>>
    decreases pieces.len(),
{
    if pieces.len() == 0 {
        None
    } else if pieces.last().len() == 0 || pieces.last() == seq!['.'] {
        last_meaningful(pieces.drop_last())
    } else {
        Some(pieces.last())
    }
}

/// `Path::file_name`: the final component, unless it is `..` or there is none.
pub open spec fn file_name(p: Seq<char>) -> Option<Seq<char>> {
    match last_meaningful(split_on(p, '/')) {
        Some(name) => if name == seq!['.', '.'] {
            None
        } else {
            Some(name)
        },
        None => None,
    }
}

/// `Path::extension`: what follows the file name's last dot, unless the name
/// has none or its only dot starts it.
pub open spec fn extension(p: Seq<char>) -> Option<Seq<char>> {
    match file_name(p) {
        Some(name) => {
            let dot = last_index_of(name, '.');
            if dot <= 0 {
                None
            } else {
                Some(name.skip(dot + 1))
            }
        },
        None => None,
    }
}

/// The final component of a path.
pub fn file_name_of(p: &[char]) -> (name: Option<Vec<char>>)
    ensures
        match name {
            Some(n) => file_name(p@) == Some(n@),
            None => file_name(p@) is None,
        },
{
    let pieces = split_char(p, '/');
    let ghost all = pieces.deep_view();
    let mut k: usize = pieces.len();
    assert(all.take(k as int) =~= all);
    while k > 0 && (pieces[k - 1].len() == 0 || (pieces[k - 1].len() == 1 && pieces[k - 1][0]
        == '.'))
        invariant
            k <= pieces.len(),
            all == pieces.deep_view(),
            last_meaningful(all) == last_meaningful(all.take(k as int)),
        decreases k,
    {
        proof {
            assert(all.take(k as int).last() =~= pieces[k - 1]@);
            assert(all.take(k as int).drop_last() =~= all.take(k - 1));
            if pieces[k - 1].len() == 1 {
                assert(pieces[k - 1]@ =~= seq!['.']);
            }
        }
        k -= 1;
    }
    if k == 0 {
        assert(all.take(0) =~= Seq::<Seq<char>>::empty());
        return None;
    }
    let last = &pieces[k - 1];
    proof {
        assert(all.take(k as int).last() =~= last@);
        assert(last@.len() > 0);
        if last@ == seq!['.'] {
            assert(last@[0] == '.');
        }
    }
    if last.len() == 2 && last[0] == '.' && last[1] == '.' {
        assert(last@ =~= seq!['.', '.']);
        return None;
    }
    proof {
        if last@ == seq!['.', '.'] {
            assert(last@[0] == '.' && last@[1] == '.');
        }
    }
    Some(slice_of(last, 0, last.len()))
}

/// The extension of a path's file name.
pub fn extension_of(p: &[char]) -> (ext: Option<Vec<char>>)
    ensures
        match ext {
            Some(e) => extension(p@) == Some(e@),
            None => extension(p@) is None,
        },
{
    let name = match file_name_of(p) {
        Some(name) => name,
        None => return None,
    };
    match find_last(&name, '.') {
        Some(dot) => if dot == 0 {
            None
        } else {
            Some(slice_of(&name, dot + 1, name.len()))
        },
        None => None,
    }
}

} // verus!
