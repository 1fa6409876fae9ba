//! Which paths are candidates for a search: those whose extension is `txt`.
//!
//! A path is text whose components are separated by `/`. Its file name is
//! the last component. The extension is the part of the file name after its
//! last dot; a file name without a dot, or whose only dot is its first
//! character, has none.

use vstd::prelude::*;
use crate::text::{string_of, to_chars};

verus! {

/// The last component of `path`: what follows its last `/`.
pub open spec fn file_name(path: Seq<char>) -> Seq<char>
    decreases path.len(),
{
    if path.len() == 0 || path.last() == '/' {
        Seq::empty()
    } else {
        file_name(path.drop_last()).push(path.last())
    }
}

/// The position of the last dot in `name`, or -1 if it holds none.
pub open spec fn last_dot(name: Seq<char>) -> int
    decreases name.len(),
{
    if name.len() == 0 {
        -1
    } else if name.last() == '.' {
        name.len() - 1
    } else {
        last_dot(name.drop_last())
    }
}

/// The extension of `path`, if it has one.
pub open spec fn extension_of(path: Seq<char>) -> Option<Seq<char>> {
    let name = file_name(path);
    let dot = last_dot(name);
    if dot <= 0 {
        None
    } else {
        Some(name.skip(dot + 1))
    }
}

/// Whether `path` is a candidate: its extension is exactly `txt`.
pub open spec fn candidate(path: Seq<char>) -> bool {
    extension_of(path) == Some(seq!['t', 'x', 't'])
}

/// The file name starts where no `/` follows.
pub proof fn lemma_file_name(path: Seq<char>, start: int)
    requires
        0 <= start <= path.len(),
        forall|i: int| start <= i < path.len() ==> path[i] != '/',
        0 < start ==> path[start - 1] == '/',
    ensures
        file_name(path) == path.skip(start),
    decreases path.len() - start,
{
    if start == path.len() {
        assert(path.skip(start) =~= Seq::<char>::empty());
    } else {
        let init = path.drop_last();
        lemma_file_name(init, start);
        assert(init.skip(start).push(path.last()) =~= path.skip(start));
    }
}

/// The last dot is the one that no dot follows.
pub proof fn lemma_last_dot(name: Seq<char>, dot: int)
    requires
        -1 <= dot < name.len(),
        forall|i: int| dot < i < name.len() ==> name[i] != '.',
        0 <= dot ==> name[dot] == '.',
    ensures
        last_dot(name) == dot,
    decreases name.len(),
{
    if name.len() > 0 && dot < name.len() - 1 {
        lemma_last_dot(name.drop_last(), dot);
    }
}

/// Where the file name of `path` starts.
pub proof fn name_start(path: Seq<char>) -> (start: int)
    ensures
        0 <= start <= path.len(),
        forall|i: int| start <= i < path.len() ==> path[i] != '/',
        0 < start ==> path[start - 1] == '/',
        file_name(path) == path.skip(start),
    decreases path.len(),
{
    if path.len() == 0 || path.last() == '/' {
        lemma_file_name(path, path.len() as int);
        path.len() as int
    } else {
        let init = path.drop_last();
        let start = name_start(init);
        assert forall|i: int| start <= i < path.len() implies path[i] != '/' by {
            if i < init.len() {
                assert(path[i] == init[i]);
            }
        }
        if 0 < start {
            assert(path[start - 1] == init[start - 1]);
        }
        lemma_file_name(path, start);
        start
    }
}

/// Where the last dot is reported, a dot stands, and none after it.
pub proof fn lemma_last_dot_found(name: Seq<char>)
    ensures
        -1 <= last_dot(name) < name.len(),
        0 <= last_dot(name) ==> name[last_dot(name)] == '.',
        forall|i: int| last_dot(name) < i < name.len() ==> name[i] != '.',
    decreases name.len(),
{
    if name.len() > 0 && name.last() != '.' {
        let init = name.drop_last();
        lemma_last_dot_found(init);
        assert forall|i: int| last_dot(name) < i < name.len() implies name[i] != '.' by {
            if i < init.len() {
                assert(name[i] == init[i]);
            }
        }
        if 0 <= last_dot(name) {
            assert(name[last_dot(name)] == init[last_dot(init)]);
        }
    }
}

/// A path is a candidate exactly if it ends in `.txt` and its file name
/// holds at least one character before that.
pub proof fn lemma_candidate_ends_in_txt(path: Seq<char>)
    ensures
        candidate(path) <==> {
            &&& path.len() >= 5
            &&& path.subrange(path.len() - 4, path.len() as int) == seq!['.', 't', 'x', 't']
            &&& path[path.len() - 5] != '/'
        },
{
    let n = path.len() as int;
    let start = name_start(path);
    let name = path.skip(start);
    lemma_last_dot_found(name);
    let dot = last_dot(name);
    if candidate(path) {
        let ext = name.skip(dot + 1);
        assert(ext == seq!['t', 'x', 't']);
        assert(ext.len() == 3);
        assert(name.len() == dot + 4);
        assert(ext[0] == 't' && ext[1] == 'x' && ext[2] == 't');
        assert(name[dot + 1] == ext[0] && name[dot + 2] == ext[1] && name[dot + 3] == ext[2]);
        assert(path[n - 5] == name[dot - 1]);
        assert(path.subrange(n - 4, n) =~= seq!['.', 't', 'x', 't']) by {
            assert(path[n - 4] == name[dot]);
            assert(path[n - 3] == name[dot + 1]);
            assert(path[n - 2] == name[dot + 2]);
            assert(path[n - 1] == name[dot + 3]);
        }
    }
    if n >= 5 && path.subrange(n - 4, n) == seq!['.', 't', 'x', 't'] && path[n - 5] != '/' {
        let tail = path.subrange(n - 4, n);
        assert(tail[0] == '.' && tail[1] == 't' && tail[2] == 'x' && tail[3] == 't');
        assert(path[n - 4] == tail[0] && path[n - 3] == tail[1] && path[n - 2] == tail[2] && path[n
            - 1] == tail[3]);
        if start > n - 5 {
            assert(path[start - 1] == '/');
        }
        assert(name[n - 4 - start] == path[n - 4]);
        assert forall|i: int| n - 4 - start < i < name.len() implies name[i] != '.' by {
            assert(name[i] == path[start + i]);
        }
        lemma_last_dot(name, n - 4 - start);
        assert(name.skip(dot + 1) =~= seq!['t', 'x', 't']);
    }
}

/// Finds where the extension of a path begins.
pub fn extension_start(chars: &Vec<char>) -> (found: Option<usize>)
    ensures
        match found {
            Some(at) => at <= chars.len() && extension_of(chars@) == Some(chars@.skip(at as int)),
            None => extension_of(chars@) is None,
        },
{
    let n: usize = chars.len();
    let mut i: usize = n;
    while i > 0 && chars[i - 1] != '/' && chars[i - 1] != '.'
        invariant
            i <= n,
            n == chars.len(),
            forall|j: int| i <= j < n ==> chars@[j] != '/' && chars@[j] != '.',
        decreases i,
    {
        i -= 1;
    }
    let ghost start = name_start(chars@);
    let ghost name = chars@.skip(start);
    if i == 0 || chars[i - 1] == '/' {
        proof {
            if i > 0 && start < i {
                assert(chars@[i - 1] != '/');
            }
            assert(start <= i);
            if start < i {
                assert(i == 0);
            }
            assert(start == i);
            lemma_last_dot(name, -1);
        }
        None
    } else {
        proof {
            if start > i - 1 {
                assert(chars@[start - 1] == '/');
            }
            assert(start <= i - 1);
            assert(name[i - 1 - start] == chars@[i - 1]);
            lemma_last_dot(name, i - 1 - start);
        }
        if i == 1 || chars[i - 2] == '/' {
            proof {
                if start < i - 1 {
                    assert(chars@[i - 2] != '/');
                }
            }
            None
        } else {
            proof {
                if start == i - 1 {
                    assert(chars@[start - 1] == '/');
                }
                assert(name.skip(i - start) =~= chars@.skip(i as int));
            }
            Some(i)
        }
    }
}

/// The extension of `path`, if it has one.
pub fn extension(path: &str) -> (found: Option<String>)
    ensures
        match found {
            Some(text) => extension_of(path@) == Some(text@),
            None => extension_of(path@) is None,
        },
{
    let chars = to_chars(path);
    match extension_start(&chars) {
        Some(at) => {
            let text = string_of(&chars, at, chars.len());
            proof {
                assert(chars@.skip(at as int) =~= chars@.subrange(at as int, chars.len() as int));
            }
            Some(text)
        },
        None => None,
    }
}

/// Tests whether `path` is a candidate: whether its extension is exactly
/// `txt`, compared case-sensitively.
pub fn is_candidate(path: &str) -> (b: bool)
    ensures
        b == candidate(path@),
{
    let chars = to_chars(path);
    match extension_start(&chars) {
        Some(at) => {
            let n: usize = chars.len();
            let b = n - at == 3 && chars[at] == 't' && chars[at + 1] == 'x' && chars[at + 2] == 't';
            proof {
                let ext = chars@.skip(at as int);
                if b {
                    assert(ext =~= seq!['t', 'x', 't']);
                } else if ext == seq!['t', 'x', 't'] {
                    assert(ext.len() == 3);
                    assert(ext[0] == 't' && ext[1] == 'x' && ext[2] == 't');
                }
            }
            b
        },
        None => false,
    }
}

} // verus!
