//! Paths as texts with components between slashes.

use crate::text::chars_of;
use vstd::prelude::*;

verus! {

/// The index of the last slash, or -1.
pub open spec fn last_slash(path: Seq<char>) -> int
    decreases path.len(),
{
    if path.len() == 0 {
        -1
    } else if path.last() == '/' {
        path.len() - 1
    } else {
        last_slash(path.drop_last())
    }
}

/// The last component of a path, if it is a name. Slashes at the end and components that are a
/// single dot are passed over; two dots are no name.
pub open spec fn file_name(path: Seq<char>) -> Option<Seq<char>>
    decreases path.len(),
{
    let slash = last_slash(path);
    let last = path.subrange(slash + 1, path.len() as int);
    if last.len() == 0 || last == seq!['.'] {
        if 0 <= slash < path.len() {
            file_name(path.subrange(0, slash))
        } else {
            None
        }
    } else if last == seq!['.', '.'] {
        None
    } else {
        Some(last)
    }
}

/// The path of what is called `name` in the directory `dir`.
pub open spec fn joined(dir: Seq<char>, name: Seq<char>) -> Seq<char> {
    dir + "/"@ + name
}

/// The last slash is a slash, and no slash follows it.
pub proof fn lemma_last_slash(path: Seq<char>)
    ensures
        -1 <= last_slash(path) < path.len(),
        last_slash(path) >= 0 ==> path[last_slash(path)] == '/',
        forall|i: int| last_slash(path) < i < path.len() ==> #[trigger] path[i] != '/',
    decreases path.len(),
{
    if path.len() > 0 && path.last() != '/' {
        let rest = path.drop_last();
        lemma_last_slash(rest);
        assert forall|i: int| last_slash(path) < i < path.len() implies #[trigger] path[i]
            != '/' by {
            if i < rest.len() {
                assert(rest[i] == path[i]);
            }
        }
    }
}

/// An index with what [`lemma_last_slash`] says of the last slash is the last slash.
pub proof fn lemma_last_slash_unique(path: Seq<char>, slash: int)
    requires
        -1 <= slash < path.len(),
        slash >= 0 ==> path[slash] == '/',
        forall|i: int| slash < i < path.len() ==> #[trigger] path[i] != '/',
    ensures
        last_slash(path) == slash,
{
    lemma_last_slash(path);
}

/// A file name has no slash in it and is neither empty nor one or two dots.
pub proof fn law_file_name_is_a_component(path: Seq<char>)
    ensures
        file_name(path) matches Some(name) ==> {
            &&& name.len() > 0
            &&& name != seq!['.']
            &&& name != seq!['.', '.']
            &&& forall|i: int| 0 <= i < name.len() ==> #[trigger] name[i] != '/'
        },
    decreases path.len(),
{
    let slash = last_slash(path);
    lemma_last_slash(path);
    let last = path.subrange(slash + 1, path.len() as int);
    if last.len() == 0 || last == seq!['.'] {
        if slash >= 0 {
            law_file_name_is_a_component(path.subrange(0, slash));
        }
    }
}

/// What is joined to a directory is the file name of the result.
pub proof fn law_joined_name_is_the_file_name(dir: Seq<char>, name: Seq<char>)
    requires
        name.len() > 0,
        name != seq!['.'],
        name != seq!['.', '.'],
        forall|i: int| 0 <= i < name.len() ==> #[trigger] name[i] != '/',
    ensures
        file_name(joined(dir, name)) == Some(name),
{
    reveal_strlit("/");
    let path = joined(dir, name);
    let slash = dir.len() as int;
    assert forall|i: int| slash < i < path.len() implies #[trigger] path[i] != '/' by {
        assert(path[i] == name[i - slash - 1]);
    }
    lemma_last_slash_unique(path, slash);
    assert(path.subrange(slash + 1, path.len() as int) == name);
}

/// The file name of `path`, if it has one.
pub fn name_of(path: &str) -> (name: Option<String>)
    ensures
        match name {
            Some(n) => file_name(path@) == Some(n@),
            None => file_name(path@) is None,
        },
{
    let chars: Vec<char> = chars_of(path);
    let ghost whole = path@;
    let mut end: usize = chars.len();
    assert(whole.subrange(0, end as int) == whole);
    loop
        invariant
            chars@ == whole,
            whole == path@,
            end <= whole.len(),
            file_name(whole.subrange(0, end as int)) == file_name(whole),
        decreases end,
    {
        let ghost front = whole.subrange(0, end as int);
        let mut start: usize = end;
        while start > 0 && chars[start - 1] != '/'
            invariant
                chars@ == whole,
                start <= end <= whole.len(),
                forall|i: int| start <= i < end ==> whole[i] != '/',
            decreases start,
        {
            start = start - 1;
        }
        let ghost last = whole.subrange(start as int, end as int);
        proof {
            lemma_last_slash_unique(front, start - 1);
            assert(front.subrange(start as int, front.len() as int) == last);
        }
        let skipped: bool = end == start || (end - start == 1 && chars[start] == '.');
        proof {
            let dot = seq!['.'];
            let dots = seq!['.', '.'];
            assert(dot[0] == '.' && dots[0] == '.' && dots[1] == '.');
            assert(forall|i: int| 0 <= i < last.len() ==> #[trigger] last[i] == whole[start + i]);
            assert(skipped ==> last.len() == 0 || last =~= dot);
            assert(last == dot ==> last[0] == '.');
            assert(last == dots ==> last[0] == '.' && last[1] == '.');
        }
        if skipped {
            if start == 0 {
                return None;
            }
            assert(front.subrange(0, start - 1) == whole.subrange(0, start - 1));
            end = start - 1;
        } else {
            let parent: bool = end - start == 2 && chars[start] == '.' && chars[start + 1] == '.';
            assert(parent == (last =~= seq!['.', '.']));
            if parent {
                return None;
            }
            return Some(path.substring_char(start, end).to_owned());
        }
    }
}

/// The path of `name` in `dir`.
pub fn join(dir: &str, name: &str) -> (path: String)
    ensures
        path@ == joined(dir@, name@),
{
    let mut path: String = dir.to_owned();
    path.append("/");
    path.append(name);
    path
}

} // verus!
