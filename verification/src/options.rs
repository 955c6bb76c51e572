//! Options of the build that shows which files are in use.

use crate::text::{chars_of, push_char};
use crate::used::path_views;
use vstd::prelude::*;

verus! {

/// The fields that are complete within the first `n` characters, and the
/// beginning of the field that is not.
pub open spec fn fields_state(s: Seq<char>, n: int) -> (Seq<Seq<char>>, Seq<char>)
    decreases n,
{
    if n <= 0 {
        (Seq::empty(), Seq::empty())
    } else {
        let (done, cur) = fields_state(s, n - 1);
        if s[n - 1] == ' ' {
            (done.push(cur), Seq::empty())
        } else {
            (done, cur.push(s[n - 1]))
        }
    }
}

/// What stands between the blanks of a text. Two blanks in a row have an
/// empty field between them, and the empty text is one empty field.
pub open spec fn fields_of(s: Seq<char>) -> Seq<Seq<char>> {
    let (done, cur) = fields_state(s, s.len() as int);
    done.push(cur)
}

/// The features to build with, as the command line names them in one
/// argument; one empty feature where there is no such argument.
pub open spec fn features_of(features: Option<String>) -> Seq<Seq<char>> {
    match features {
        Some(list) => fields_of(list@),
        None => fields_of(Seq::empty()),
    }
}

/// The features to build with: the fields of the argument.
pub fn split_features(features: &Option<String>) -> (r: Vec<String>)
    ensures
        path_views(r@) == features_of(*features),
{
    let chars = match features {
        Some(list) => chars_of(list.as_str()),
        None => Vec::new(),
    };
    let mut out: Vec<String> = Vec::new();
    let mut cur = String::new();
    let mut i: usize = 0;
    assert(path_views(out@) =~= Seq::<Seq<char>>::empty());
    while i < chars.len()
        invariant
            i <= chars.len(),
            (path_views(out@), cur@) == fields_state(chars@, i as int),
        decreases chars.len() - i,
    {
        let ghost before = out@;
        if chars[i] == ' ' {
            out.push(cur);
            assert(path_views(out@) =~= path_views(before).push(cur@));
            cur = String::new();
        } else {
            push_char(&mut cur, chars[i]);
        }
        i = i + 1;
    }
    let ghost before = out@;
    out.push(cur);
    assert(path_views(out@) =~= path_views(before).push(cur@));
    out
}

} // verus!
