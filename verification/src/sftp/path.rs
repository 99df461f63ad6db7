//! Remote paths as text: absolute paths, parents and joins.

use vstd::prelude::*;
use vstd::string::*;

verus! {

/// Whether a path starts at the root.
pub open spec fn is_absolute(path: Seq<char>) -> bool {
    path.len() > 0 && path[0] == '/'
}

/// The components of a path: what stands between its slashes, without the
/// empty pieces.
pub open spec fn components(path: Seq<char>) -> Seq<Seq<char>>
    decreases path.len(),
{
    if path.len() == 0 {
        Seq::empty()
    } else {
        let front = path.drop_last();
        let before = components(front);
        if path.last() == '/' {
            before
        } else if front.len() > 0 && front.last() != '/' {
            before.drop_last().push(before.last().push(path.last()))
        } else {
            before.push(seq![path.last()])
        }
    }
}

/// The components written one after the other, a slash before each.
pub open spec fn rooted(parts: Seq<Seq<char>>) -> Seq<char>
    decreases parts.len(),
{
    if parts.len() == 0 {
        Seq::empty()
    } else {
        rooted(parts.drop_last()) + seq!['/'] + parts.last()
    }
}

/// The directory above `dir`: its components but the last, from the root.
/// The root is above itself and above every directory directly in it.
pub open spec fn parent_of(dir: Seq<char>) -> Seq<char> {
    if components(dir).len() <= 1 {
        seq!['/']
    } else {
        rooted(components(dir).drop_last())
    }
}

/// `path` seen from `base`: the two joined by one slash, which is left out
/// where `base` is empty or ends in one.
pub open spec fn joined_path(base: Seq<char>, path: Seq<char>) -> Seq<char> {
    if base.len() > 0 && base.last() != '/' {
        base + seq!['/'] + path
    } else {
        base + path
    }
}

/// The absolute path that `path` names in the working directory
/// `working_dir`. An absolute path names itself, `.` the working directory,
/// `..` the directory above it, and any other path is joined onto it.
pub open spec fn resolved(working_dir: Seq<char>, path: Seq<char>) -> Seq<char> {
    if is_absolute(path) {
        path
    } else if path == seq!['.'] {
        working_dir
    } else if path == seq!['.', '.'] {
        parent_of(working_dir)
    } else {
        joined_path(working_dir, path)
    }
}

/// An absolute path resolves to itself whatever the working directory is,
/// `.` to the working directory and `..` to the directory above it.
pub proof fn lemma_resolved_cases(working_dir: Seq<char>, path: Seq<char>)
    ensures
        is_absolute(path) ==> resolved(working_dir, path) == path,
        resolved(working_dir, seq!['.']) == working_dir,
        resolved(working_dir, seq!['.', '.']) == parent_of(working_dir),
{
    assert(seq!['.'][0] == '.');
    assert(seq!['.', '.'][0] == '.');
    assert(seq!['.'] != seq!['.', '.']) by {
        assert(seq!['.'].len() != seq!['.', '.'].len());
    }
}

/// The directory above any directory is an absolute path.
pub proof fn lemma_parent_is_absolute(dir: Seq<char>)
    ensures
        is_absolute(parent_of(dir)),
{
    if components(dir).len() > 1 {
        lemma_rooted_starts_at_root(components(dir).drop_last());
    }
}

/// Components written from the root start with a slash.
proof fn lemma_rooted_starts_at_root(parts: Seq<Seq<char>>)
    requires
        parts.len() > 0,
    ensures
        is_absolute(rooted(parts)),
    decreases parts.len(),
{
    let before = rooted(parts.drop_last());
    if parts.len() > 1 {
        lemma_rooted_starts_at_root(parts.drop_last());
        assert(rooted(parts)[0] == before[0]);
    } else {
        assert(before =~= Seq::<char>::empty());
        assert(rooted(parts)[0] == seq!['/'][0]);
    }
}

/// The name that a remote path gives to a local copy: its last component, or
/// `download` for a path without one.
pub open spec fn file_name(path: Seq<char>) -> Seq<char> {
    if components(path).len() == 0 {
        "download"@
    } else {
        components(path).last()
    }
}

/// Where a download of `remote_path` goes on this machine: to the local path
/// that was given, or, where none was, to the file of the remote file's name
/// in the current directory.
pub open spec fn local_target_of(remote_path: Seq<char>, local_path: Option<Seq<char>>) -> Seq<
    char,
> {
    match local_path {
        Some(path) => path,
        None => file_name(remote_path),
    }
}

/// A path that ends in a character of a component has a component.
proof fn lemma_components_nonempty(path: Seq<char>)
    requires
        path.len() > 0,
        path.last() != '/',
    ensures
        components(path).len() > 0,
{
}

/// One character more: how the components and their rooted form grow.
proof fn lemma_components_step(path: Seq<char>, c: char)
    ensures
        c == '/' ==> components(path.push(c)) == components(path),
        c != '/' && (path.len() == 0 || path.last() == '/') ==> components(path.push(c))
            == components(path).push(seq![c]) && rooted(components(path.push(c))) == rooted(
            components(path),
        ) + seq!['/', c],
        c != '/' && path.len() > 0 && path.last() != '/' ==> components(path).len() > 0
            && components(path.push(c)).len() == components(path).len() && components(
            path.push(c),
        ).drop_last() == components(path).drop_last() && components(path.push(c)).last()
            == components(path).last().push(c) && rooted(components(path.push(c))) == rooted(
            components(path),
        ).push(c),
{
    let longer = path.push(c);
    let before = components(path);
    assert(longer.drop_last() =~= path);
    assert(longer.last() == c);
    if c != '/' {
        if path.len() == 0 || path.last() == '/' {
            let after = before.push(seq![c]);
            assert(after.drop_last() =~= before);
            assert(rooted(after) =~= rooted(before) + seq!['/', c]);
        } else {
            lemma_components_nonempty(path);
            let after = before.drop_last().push(before.last().push(c));
            assert(after.drop_last() =~= before.drop_last());
            assert(rooted(after) =~= rooted(before).push(c));
        }
    }
}

/// `String::push` of the standard library: `c` is appended to the text.
#[verifier::external_body]
fn push_char(text: &mut String, c: char)
    ensures
        final(text)@ == old(text)@.push(c),
{
    text.push(c)
}

/// The characters of `text`, in order.
pub fn chars_of(text: &str) -> (v: Vec<char>)
    ensures
        v@ == text@,
{
    let mut v: Vec<char> = Vec::new();
    for c in it: text.chars()
        invariant
            v@ == it.seq().take(it.index() as int),
            it.seq() == text@,
    {
        v.push(c);
        assert(v@ =~= it.seq().take(it.index() + 1));
    }
    assert(v@ =~= text@);
    v
}

/// The text made of the first `end` of `chars`.
fn text_of(chars: &Vec<char>, end: usize) -> (text: String)
    requires
        end <= chars.len(),
    ensures
        text@ == chars@.take(end as int),
{
    let mut text = String::new();
    let mut i: usize = 0;
    assert(text@ =~= chars@.take(0));
    while i < end
        invariant
            i <= end <= chars.len(),
            text@ == chars@.take(i as int),
        decreases end - i,
    {
        push_char(&mut text, chars[i]);
        i += 1;
        assert(text@ =~= chars@.take(i as int));
    }
    text
}

/// Whether `path` starts at the root.
pub fn starts_at_root(path: &str) -> (r: bool)
    ensures
        r == is_absolute(path@),
{
    !path.is_empty() && path.get_char(0) == '/'
}

/// The directory above `dir`.
pub fn parent_directory(dir: &str) -> (parent: String)
    ensures
        parent@ == parent_of(dir@),
{
    let chars = chars_of(dir);
    let mut out: Vec<char> = Vec::new();
    let mut count: usize = 0;
    let mut last_start: usize = 0;
    let mut i: usize = 0;
    assert(chars@.take(0) =~= Seq::<char>::empty());
    while i < chars.len()
        invariant
            i <= chars.len(),
            chars@ == dir@,
            count <= i,
            count == components(chars@.take(i as int)).len(),
            out@ == rooted(components(chars@.take(i as int))),
            count > 0 ==> last_start == rooted(components(chars@.take(i as int)).drop_last()).len(),
            last_start <= out.len(),
        decreases chars.len() - i,
    {
        let c = chars[i];
        proof {
            lemma_components_step(chars@.take(i as int), c);
            assert(chars@.take(i as int).push(c) =~= chars@.take(i + 1));
            if i > 0 {
                assert(chars@.take(i as int).last() == chars@[i - 1]);
            }
        }
        if c != '/' {
            if i == 0 || chars[i - 1] == '/' {
                proof {
                    let before = components(chars@.take(i as int));
                    assert(before.push(seq![c]).drop_last() =~= before);
                }
                last_start = out.len();
                count = count + 1;
                out.push('/');
            }
            out.push(c);
            assert(out@ =~= rooted(components(chars@.take(i + 1))));
        }
        i += 1;
    }
    assert(chars@.take(i as int) =~= dir@);
    if count <= 1 {
        let mut root = String::new();
        push_char(&mut root, '/');
        assert(root@ =~= seq!['/']);
        root
    } else {
        text_of(&out, last_start)
    }
}

/// `path` seen from the directory `base`.
pub fn join_path(base: &str, path: &str) -> (joined: String)
    ensures
        joined@ == joined_path(base@, path@),
{
    let mut joined = String::from_str(base);
    let n = base.unicode_len();
    if n > 0 && base.get_char(n - 1) != '/' {
        push_char(&mut joined, '/');
    }
    joined.append(path);
    assert(joined@ =~= joined_path(base@, path@));
    joined
}

/// The name that `path` gives to a local copy.
pub fn file_name_of(path: &str) -> (name: String)
    ensures
        name@ == file_name(path@),
{
    let chars = chars_of(path);
    let mut found = false;
    let mut start: usize = 0;
    let mut end: usize = 0;
    let mut i: usize = 0;
    assert(chars@.take(0) =~= Seq::<char>::empty());
    while i < chars.len()
        invariant
            i <= chars.len(),
            chars@ == path@,
            found == (components(chars@.take(i as int)).len() > 0),
            found ==> start <= end <= i && components(chars@.take(i as int)).last()
                == chars@.subrange(start as int, end as int),
            i > 0 && chars@[i - 1] != '/' ==> found && end == i,
        decreases chars.len() - i,
    {
        let c = chars[i];
        proof {
            lemma_components_step(chars@.take(i as int), c);
            assert(chars@.take(i as int).push(c) =~= chars@.take(i + 1));
            if i > 0 {
                assert(chars@.take(i as int).last() == chars@[i - 1]);
            }
        }
        if c != '/' {
            if i == 0 || chars[i - 1] == '/' {
                start = i;
                found = true;
                assert(chars@.subrange(i as int, i + 1) =~= seq![c]);
            } else {
                assert(chars@.subrange(start as int, i as int).push(c) =~= chars@.subrange(
                    start as int,
                    i + 1,
                ));
            }
            end = i + 1;
        }
        i += 1;
    }
    assert(chars@.take(i as int) =~= path@);
    if found {
        String::from_str(path.substring_char(start, end))
    } else {
        String::from_str("download")
    }
}

/// Where a download of `remote_path` goes on this machine.
pub fn local_target(remote_path: &str, local_path: Option<&str>) -> (target: String)
    ensures
        target@ == local_target_of(
            remote_path@,
            match local_path {
                Some(path) => Some(path@),
                None => None,
            },
        ),
{
    match local_path {
        Some(path) => String::from_str(path),
        None => file_name_of(remote_path),
    }
}

/// The absolute path that `path` names in the working directory `working_dir`.
pub fn resolve(working_dir: &str, path: &str) -> (r: String)
    ensures
        r@ == resolved(working_dir@, path@),
{
    if starts_at_root(path) {
        return String::from_str(path);
    }
    let n = path.unicode_len();
    if n == 1 && path.get_char(0) == '.' {
        assert(path@ =~= seq!['.']);
        String::from_str(working_dir)
    } else if n == 2 && path.get_char(0) == '.' && path.get_char(1) == '.' {
        assert(path@ =~= seq!['.', '.']);
        parent_directory(working_dir)
    } else {
        proof {
            if path@ == seq!['.'] {
                assert(path@.len() == 1 && path@[0] == '.');
            }
            if path@ == seq!['.', '.'] {
                assert(path@.len() == 2 && path@[0] == '.' && path@[1] == '.');
            }
        }
        join_path(working_dir, path)
    }
}

} // verus!
