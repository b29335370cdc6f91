//! Paths as text, with `/` between their parts.
use crate::text::{chars_of, copy_of, same, split, split_text, text_between, text_view, texts};
use vstd::prelude::*;

verus! {

broadcast use vstd::seq_lib::group_seq_properties;

/// A part that names something: neither empty nor a dot.
pub open spec fn names(part: Seq<char>) -> bool {
    part.len() > 0 && part != "."@
}

/// The last of the parts that name something.
pub open spec fn last_named(parts: Seq<Seq<char>>) -> Option<Seq<char>>
    decreases parts.len(),
{
    if parts.len() == 0 {
        None
    } else if names(parts.last()) {
        Some(parts.last())
    } else {
        last_named(parts.drop_last())
    }
}

/// The name of the file that a path leads to; none for one that ends in two dots, and for
/// one without parts.
pub open spec fn file_name_of(path: Seq<char>) -> Option<Seq<char>> {
    match last_named(split(path, '/')) {
        Some(name) => if name == ".."@ {
            None
        } else {
            Some(name)
        },
        None => None,
    }
}

/// The name of the file that a path leads to.
pub fn file_name(path: &str) -> (name: Option<String>)
    ensures
        text_view(name) == file_name_of(path@),
{
    let parts = split_text(path, '/');
    let ghost all = texts(parts@);
    let mut end: usize = parts.len();
    assert(all.take(end as int) =~= all);
    while end > 0
        invariant
            end <= parts@.len(),
            all == texts(parts@),
            all == split(path@, '/'),
            last_named(all) == last_named(all.take(end as int)),
        decreases end,
    {
        assert(all[end - 1] == parts@[end - 1]@);
        assert(all.take(end as int).drop_last() =~= all.take(end - 1));
        let part = parts[end - 1].as_str();
        if part.unicode_len() > 0 && !same(part, ".") {
            if same(part, "..") {
                return None;
            }
            return Some(copy_of(part));
        }
        end -= 1;
    }
    None
}

/// The last position of a character before `end`; none where it does not occur.
pub open spec fn last_at(text: Seq<char>, c: char, end: int) -> Option<int>
    decreases end,
{
    if end <= 0 || end > text.len() {
        None
    } else if text[end - 1] == c {
        Some(end - 1)
    } else {
        last_at(text, c, end - 1)
    }
}

fn find_last(chars: &Vec<char>, c: char) -> (at: Option<usize>)
    ensures
        (match at {
            Some(i) => Some(i as int),
            None => None,
        }) == last_at(chars@, c, chars@.len() as int),
        at matches Some(i) ==> i < chars@.len(),
{
    let mut end: usize = chars.len();
    while end > 0
        invariant
            end <= chars@.len(),
            last_at(chars@, c, chars@.len() as int) == last_at(chars@, c, end as int),
        decreases end,
    {
        if chars[end - 1] == c {
            return Some(end - 1);
        }
        end -= 1;
    }
    None
}

/// A file name with a mark before its extension; behind it where there is none.
pub open spec fn marked_name(name: Seq<char>, mark: Seq<char>) -> Seq<char> {
    match last_at(name, '.', name.len() as int) {
        Some(dot) => if dot > 0 && dot + 1 < name.len() {
            name.take(dot) + "."@ + mark + "."@ + name.skip(dot + 1)
        } else {
            name + "."@ + mark
        },
        None => name + "."@ + mark,
    }
}

/// A file name with a mark before its extension.
pub fn mark_name(name: &str, mark: &str) -> (marked: String)
    ensures
        marked@ == marked_name(name@, mark@),
{
    let chars = chars_of(name);
    if let Some(dot) = find_last(&chars, '.') {
        if dot > 0 && dot < chars.len() - 1 {
            let mut marked = text_between(&chars, 0, dot);
            assert(marked@ =~= name@.take(dot as int));
            let rest = text_between(&chars, dot + 1, chars.len());
            assert(rest@ =~= name@.skip(dot + 1));
            marked.append(".");
            marked.append(mark);
            marked.append(".");
            marked.append(rest.as_str());
            return marked;
        }
    }
    let mut marked = copy_of(name);
    marked.append(".");
    marked.append(mark);
    marked
}

/// A path without slashes and dots at its end; a root stays.
pub open spec fn trimmed_path(path: Seq<char>) -> Seq<char>
    decreases path.len(),
{
    if path.len() > 1 && path.last() == '/' {
        trimmed_path(path.drop_last())
    } else if path.len() > 1 && path.last() == '.' && path[path.len() - 2] == '/' {
        trimmed_path(path.drop_last())
    } else {
        path
    }
}

/// The directory of a file: what stands before its name.
pub open spec fn directory_of(path: Seq<char>) -> Seq<char> {
    let whole = trimmed_path(path);
    match last_at(whole, '/', whole.len() as int) {
        Some(slash) => trimmed_path(whole.take(slash + 1)),
        None => seq![],
    }
}

fn trim_path_end(chars: &Vec<char>, from: usize) -> (end: usize)
    requires
        from <= chars@.len(),
    ensures
        end <= from,
        chars@.take(end as int) == trimmed_path(chars@.take(from as int)),
{
    let mut end: usize = from;
    while end > 1 && (chars[end - 1] == '/' || (chars[end - 1] == '.' && chars[end - 2] == '/'))
        invariant
            end <= from <= chars@.len(),
            trimmed_path(chars@.take(from as int)) == trimmed_path(chars@.take(end as int)),
        decreases end,
    {
        assert(chars@.take(end as int).drop_last() =~= chars@.take(end - 1));
        end -= 1;
    }
    end
}

/// The directory of a file.
pub fn directory(path: &str) -> (dir: String)
    ensures
        dir@ == directory_of(path@),
{
    let chars = chars_of(path);
    assert(chars@.take(chars@.len() as int) =~= chars@);
    let end: usize = trim_path_end(&chars, chars.len());
    let whole = chars_of(text_between(&chars, 0, end).as_str());
    assert(whole@ =~= trimmed_path(path@));
    match find_last(&whole, '/') {
        Some(slash) => {
            let kept: usize = trim_path_end(&whole, slash + 1);
            let dir = text_between(&whole, 0, kept);
            assert(dir@ =~= whole@.take(kept as int));
            dir
        },
        None => {
            let dir = String::new();
            assert(dir@ =~= seq![]);
            dir
        },
    }
}

/// A name in a directory.
pub open spec fn joined_path(dir: Seq<char>, name: Seq<char>) -> Seq<char> {
    if dir.len() == 0 || dir.last() == '/' {
        dir + name
    } else {
        dir + "/"@ + name
    }
}

/// A name in a directory.
pub fn join_path(dir: &str, name: &str) -> (path: String)
    ensures
        path@ == joined_path(dir@, name@),
{
    let chars = chars_of(dir);
    let mut path = copy_of(dir);
    if chars.len() > 0 && chars[chars.len() - 1] != '/' {
        path.append("/");
    }
    path.append(name);
    path
}

} // verus!
