//! Slash-separated paths as text.
use vstd::prelude::*;
use vstd::string::*;

verus! {

/// `name` below `base`: an absolute name replaces the base, and a separator is
/// added where the base does not end in one.
pub open spec fn joined(base: Seq<char>, name: Seq<char>) -> Seq<char> {
    if name.len() > 0 && name[0] == '/' {
        name
    } else if base.len() == 0 || base.last() == '/' {
        base + name
    } else {
        base + "/"@ + name
    }
}

pub fn join_path(base: &str, name: &str) -> (path: String)
    ensures
        path@ == joined(base@, name@),
{
    let name_len: usize = name.unicode_len();
    if name_len > 0 && name.get_char(0) == '/' {
        return String::from_str(name);
    }
    let mut path = String::from_str(base);
    let base_len: usize = base.unicode_len();
    if base_len > 0 && base.get_char(base_len - 1) != '/' {
        path.append("/");
    }
    path.append(name);
    path
}

/// `path` without its trailing separators and `.` components.
pub open spec fn trimmed(path: Seq<char>) -> Seq<char>
    decreases path.len(),
{
    if path.len() > 0 && path.last() == '/' {
        trimmed(path.drop_last())
    } else if path.len() > 1 && path.last() == '.' && path[path.len() - 2] == '/' {
        trimmed(path.drop_last())
    } else {
        path
    }
}

/// What follows the last separator.
pub open spec fn last_segment(path: Seq<char>) -> Seq<char>
    decreases path.len(),
{
    if path.len() == 0 || path.last() == '/' {
        Seq::empty()
    } else {
        last_segment(path.drop_last()).push(path.last())
    }
}

/// The final component of a path, unless the path ends in a root, a `..` or is
/// only the current directory.
pub open spec fn file_name_of(path: Seq<char>) -> Option<Seq<char>> {
    let name = last_segment(trimmed(path));
    if name.len() == 0 || name == seq!['.'] || name == seq!['.', '.'] {
        None
    } else {
        Some(name)
    }
}

proof fn lemma_last_segment_at(path: Seq<char>, start: int)
    requires
        0 <= start <= path.len(),
        start == 0 || path[start - 1] == '/',
        forall|k: int| start <= k < path.len() ==> #[trigger] path[k] != '/',
    ensures
        last_segment(path) == path.subrange(start, path.len() as int),
    decreases path.len(),
{
    if start == path.len() {
        assert(path.subrange(start, path.len() as int) =~= Seq::<char>::empty());
    } else {
        let head = path.drop_last();
        assert(path[path.len() - 1] != '/');
        lemma_last_segment_at(head, start);
        assert(path.subrange(start, path.len() as int) =~= head.subrange(
            start,
            head.len() as int,
        ).push(path.last()));
    }
}

pub fn file_name(path: &str) -> (r: Option<String>)
    ensures
        match r {
            Some(name) => file_name_of(path@) == Some(name@),
            None => file_name_of(path@) is None,
        },
{
    let len: usize = path.unicode_len();
    assert(path@.take(len as int) =~= path@);
    let end: usize = trimmed_len(path, len);
    let start: usize = segment_start(path, end);
    let ghost name = path@.subrange(start as int, end as int);
    if start == end {
        return None;
    }
    if end - start == 1 && path.get_char(start) == '.' {
        assert(name =~= seq!['.']);
        return None;
    }
    if end - start == 2 && path.get_char(start) == '.' && path.get_char(start + 1) == '.' {
        assert(name =~= seq!['.', '.']);
        return None;
    }
    proof {
        if name == seq!['.'] {
            assert(name[0] == '.');
        }
        if name == seq!['.', '.'] {
            assert(name[0] == '.' && name[1] == '.');
        }
    }
    Some(path.substring_char(start, end).to_owned())
}

/// A path without its final component, unless the path is empty or a root.
pub open spec fn parent_of(path: Seq<char>) -> Option<Seq<char>> {
    let whole = trimmed(path);
    if whole.len() == 0 {
        None
    } else {
        let rest = whole.take(whole.len() - last_segment(whole).len());
        if rest.len() > 0 && trimmed(rest).len() == 0 {
            Some(seq!['/'])
        } else {
            Some(trimmed(rest))
        }
    }
}

/// How much of a path is left without trailing separators and `.` components.
fn trimmed_len(path: &str, upto: usize) -> (end: usize)
    requires
        upto <= path@.len(),
    ensures
        end <= upto,
        trimmed(path@.take(upto as int)) == path@.take(end as int),
{
    let mut end: usize = upto;
    while end > 0 && (path.get_char(end - 1) == '/' || (end > 1 && path.get_char(end - 1) == '.'
        && path.get_char(end - 2) == '/'))
        invariant
            end <= upto <= path@.len(),
            trimmed(path@.take(upto as int)) == trimmed(path@.take(end as int)),
        decreases end,
    {
        assert(path@.take(end as int).drop_last() =~= path@.take(end as int - 1));
        end = end - 1;
    }
    assert(trimmed(path@.take(end as int)) == path@.take(end as int));
    end
}

/// Where the final component of the first `end` characters starts.
fn segment_start(path: &str, end: usize) -> (start: usize)
    requires
        end <= path@.len(),
    ensures
        start <= end,
        last_segment(path@.take(end as int)) == path@.subrange(start as int, end as int),
        start == 0 || path@[start - 1] == '/',
{
    let mut start: usize = end;
    while start > 0 && path.get_char(start - 1) != '/'
        invariant
            start <= end <= path@.len(),
            forall|k: int| start <= k < end ==> #[trigger] path@[k] != '/',
        decreases start,
    {
        start = start - 1;
    }
    proof {
        let head = path@.take(end as int);
        lemma_last_segment_at(head, start as int);
        assert(head.subrange(start as int, end as int) =~= path@.subrange(
            start as int,
            end as int,
        ));
    }
    start
}

pub fn parent_path(path: &str) -> (r: Option<String>)
    ensures
        match r {
            Some(parent) => parent_of(path@) == Some(parent@),
            None => parent_of(path@) is None,
        },
{
    let len: usize = path.unicode_len();
    assert(path@.take(len as int) =~= path@);
    let end: usize = trimmed_len(path, len);
    if end == 0 {
        return None;
    }
    let start: usize = segment_start(path, end);
    let cut: usize = trimmed_len(path, start);
    proof {
        let whole = trimmed(path@);
        assert(whole.take(whole.len() - last_segment(whole).len()) =~= path@.take(start as int));
    }
    if start > 0 && cut == 0 {
        proof {
            reveal_strlit("/");
            assert("/"@ =~= seq!['/']);
        }
        return Some(String::from_str("/"));
    }
    assert(path@.subrange(0, cut as int) =~= path@.take(cut as int));
    Some(path.substring_char(0, cut).to_owned())
}

/// A joined path ends in the name. An absolute name stands alone; any other stands behind
/// the base, and right behind a separator unless there is no base.
pub proof fn lemma_joined_ends_in_the_name(base: Seq<char>, name: Seq<char>)
    ensures
        ({
            let path = joined(base, name);
            let at = path.len() - name.len();
            &&& at >= 0
            &&& path.skip(at) == name
            &&& name.len() > 0 && name[0] == '/' ==> path == name
            &&& !(name.len() > 0 && name[0] == '/') ==> {
                &&& base.is_prefix_of(path)
                &&& at <= base.len() + 1
                &&& base.len() > 0 ==> at > 0 && path[at - 1] == '/'
                &&& base.len() == 0 ==> at == 0
            }
        }),
{
    reveal_strlit("/");
    let path = joined(base, name);
    let at = path.len() - name.len();
    assert(path.skip(at) =~= name);
    if !(name.len() > 0 && name[0] == '/') {
        assert(path.take(base.len() as int) =~= base);
    }
}

/// Trimming takes nothing but separators and `.` components off the end, and leaves none
/// of them there.
pub proof fn lemma_trimmed_is_a_prefix(path: Seq<char>)
    ensures
        trimmed(path).is_prefix_of(path),
        trimmed(path).len() > 0 ==> trimmed(path).last() != '/',
        trimmed(trimmed(path)) == trimmed(path),
        forall|i: int|
            trimmed(path).len() <= i < path.len() ==> #[trigger] path[i] == '/' || path[i] == '.',
    decreases path.len(),
{
    let slash = path.len() > 0 && path.last() == '/';
    let dot = path.len() > 1 && path.last() == '.' && path[path.len() - 2] == '/';
    if slash || dot {
        let head = path.drop_last();
        lemma_trimmed_is_a_prefix(head);
        assert forall|i: int| trimmed(path).len() <= i < path.len() implies #[trigger] path[i]
            == '/' || path[i] == '.' by {
            if i < head.len() {
                assert(head[i] == path[i]);
            }
        }
    }
}

/// The last segment has no separator in it, ends the path, and stands behind a separator
/// or at the start.
pub proof fn lemma_last_segment_follows_the_last_separator(path: Seq<char>)
    ensures
        ({
            let name = last_segment(path);
            let at = path.len() - name.len();
            &&& at >= 0
            &&& path.skip(at) == name
            &&& at > 0 ==> path[at - 1] == '/'
            &&& forall|i: int| 0 <= i < name.len() ==> #[trigger] name[i] != '/'
        }),
    decreases path.len(),
{
    let name = last_segment(path);
    if path.len() == 0 || path.last() == '/' {
        assert(path.skip(path.len() as int) =~= name);
    } else {
        let head = path.drop_last();
        lemma_last_segment_follows_the_last_separator(head);
        let at = head.len() - last_segment(head).len();
        assert(path.skip(at) =~= head.skip(at).push(path.last()));
    }
}

/// What is joined can be taken apart: the file name of a path is the plain name that was
/// joined last, and its parent is what it was joined to.
pub proof fn lemma_joined_comes_apart(base: Seq<char>, name: Seq<char>)
    requires
        name.len() > 0,
        name != seq!['.'],
        name != seq!['.', '.'],
        forall|i: int| 0 <= i < name.len() ==> #[trigger] name[i] != '/',
    ensures
        file_name_of(joined(base, name)) == Some(name),
        trimmed(base).len() > 0 ==> parent_of(joined(base, name)) == Some(trimmed(base)),
        base.len() == 0 ==> parent_of(joined(base, name)) == Some(Seq::<char>::empty()),
{
    reveal_strlit("/");
    let path = joined(base, name);
    let at = path.len() - name.len();
    lemma_joined_ends_in_the_name(base, name);
    assert forall|k: int| at <= k < path.len() implies #[trigger] path[k] != '/' by {
        assert(path.skip(at)[k - at] == name[k - at]);
    }
    assert(path.last() != '/');
    assert(trimmed(path) == path) by {
        if path.last() == '.' && path.len() > 1 && path[path.len() - 2] == '/' {
            assert(at == path.len() - 1);
            assert(name =~= seq!['.']) by {
                assert(path.skip(at)[0] == path.last());
            }
        }
    }
    lemma_last_segment_at(path, at);
    assert(path.subrange(at, path.len() as int) =~= path.skip(at));
    let rest = path.take(at);
    if base.len() > 0 {
        if base.last() == '/' {
            assert(rest =~= base);
        } else {
            assert(rest =~= base + "/"@);
            assert(rest.last() == '/');
            assert(rest.drop_last() =~= base);
        }
        assert(trimmed(rest) == trimmed(base));
    } else {
        assert(rest =~= Seq::<char>::empty());
    }
}

} // verus!
