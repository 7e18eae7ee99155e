//! What callers can rely on of paths.

use crate::path::{
    file_name, join, law_joined_name_is_the_file_name, lemma_last_slash_unique, name_of,
};
use vstd::prelude::*;

verus! {

/// A path is joined from a directory, a slash and a name.
pub proof fn law_joined_with_a_slash(dir: &str, name: &str, path: String)
    requires
        call_ensures(join, (dir, name), path),
    ensures
        path@ == dir@ + "/"@ + name@,
{
}

/// A path whose last component is a name has that name, whatever stands before it.
pub proof fn law_last_component_is_the_name(
    path: &str,
    found: Option<String>,
    before: Seq<char>,
    name: Seq<char>,
)
    requires
        call_ensures(name_of, (path,), found),
        path@ == name || path@ == before + "/"@ + name,
        name.len() > 0,
        name != seq!['.'],
        name != seq!['.', '.'],
        forall|i: int| 0 <= i < name.len() ==> #[trigger] name[i] != '/',
    ensures
        found matches Some(n) && n@ == name,
{
    if path@ == name {
        lemma_last_slash_unique(name, -1);
        assert(name.subrange(0, name.len() as int) == name);
    } else {
        law_joined_name_is_the_file_name(before, name);
    }
}

/// A slash, or a slash and a dot, at the end of a path does not change its name.
pub proof fn law_slashes_and_dots_at_the_end_do_not_count(
    path: &str,
    longer: &str,
    found: Option<String>,
    again: Option<String>,
)
    requires
        call_ensures(name_of, (path,), found),
        call_ensures(name_of, (longer,), again),
        longer@ == path@ + seq!['/'] || longer@ == path@ + seq!['/', '.'],
    ensures
        found is Some <==> again is Some,
        found matches Some(name) ==> again->Some_0@ == name@,
{
    let n = path@.len() as int;
    lemma_last_slash_unique(longer@, n);
    let last = longer@.subrange(n + 1, longer@.len() as int);
    if longer@ == path@ + seq!['/', '.'] {
        assert(last =~= seq!['.']);
    } else {
        assert(last.len() == 0);
    }
    assert(longer@.subrange(0, n) == path@);
    assert(file_name(longer@) == file_name(path@));
}

/// A path that is empty, or that ends in two dots, has no name.
pub proof fn law_two_dots_are_no_name(path: &str, found: Option<String>, before: Seq<char>)
    requires
        call_ensures(name_of, (path,), found),
        path@.len() == 0 || path@ == seq!['.'] || path@ == seq!['.', '.'] || path@ == before + seq![
            '/',
            '.',
            '.',
        ],
    ensures
        found is None,
{
    let dots = seq!['.', '.'];
    if path@.len() == 0 {
        lemma_last_slash_unique(path@, -1);
    } else if path@ == seq!['.'] || path@ == dots {
        assert(forall|i: int| 0 <= i < path@.len() ==> #[trigger] path@[i] == '.');
        lemma_last_slash_unique(path@, -1);
        assert(path@.subrange(0, path@.len() as int) == path@);
        assert(dots.len() != seq!['.'].len());
    } else {
        let n = before.len() as int;
        assert(path@[n] == '/' && path@[n + 1] == '.' && path@[n + 2] == '.');
        lemma_last_slash_unique(path@, n);
        assert(path@.subrange(n + 1, path@.len() as int) =~= dots);
        assert(dots.len() != seq!['.'].len());
    }
}

} // verus!
