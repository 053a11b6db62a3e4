//! File paths as texts, taken apart at their slashes the way Unix paths are.
//!
//! Repeated slashes, slashes at the end and `.` segments do not count, except for
//! a `.` that a relative path begins with.

use vstd::prelude::*;

use crate::text::{chars_of, owned, same_chars, text_of};

verus! {

/// `s` without slashes and `.` segments at its end. A root slash stays, and so
/// does a path that is just `.`.
pub open spec fn body(s: Seq<char>) -> Seq<char>
    decreases s.len(),
{
    if s.len() > 1 && s.last() == '/' {
        body(s.drop_last())
    } else if s.len() > 1 && s.last() == '.' && s[s.len() - 2] == '/' {
        body(s.drop_last())
    } else {
        s
    }
}

/// Where the text after the last slash begins.
pub open spec fn tail_start(s: Seq<char>) -> nat
    decreases s.len(),
{
    if s.len() == 0 {
        0
    } else if s.last() == '/' {
        s.len()
    } else {
        tail_start(s.drop_last())
    }
}

/// The last segment of a path.
pub open spec fn last_segment(s: Seq<char>) -> Seq<char> {
    body(s).skip(tail_start(body(s)) as int)
}

/// The path names something other than the root, the folder itself or a parent.
pub open spec fn has_file_name(s: Seq<char>) -> bool {
    let last = last_segment(s);
    last.len() > 0 && last != seq!['.'] && last != seq!['.', '.']
}

/// The position of the last dot of a file name, -1 if it has none.
pub open spec fn last_dot(name: Seq<char>) -> int
    decreases name.len(),
{
    if name.len() == 0 {
        -1
    } else if name.last() == '.' {
        name.len() - 1
    } else {
        last_dot(name.drop_last())
    }
}

/// A file name without its extension. A dot at the front begins no extension.
pub open spec fn stem_of(name: Seq<char>) -> Seq<char> {
    if last_dot(name) > 0 {
        name.take(last_dot(name))
    } else {
        name
    }
}

/// The part of a path before the last segment, without the slash between them.
pub open spec fn parent_of(s: Seq<char>) -> Option<Seq<char>> {
    let t = body(s);
    if t.len() == 0 || t == seq!['/'] {
        None
    } else {
        Some(body(t.take(tail_start(t) as int)))
    }
}

/// `name` in the folder `dir`; an absolute `name` stands for itself.
pub open spec fn joined(dir: Seq<char>, name: Seq<char>) -> Seq<char> {
    if name.len() > 0 && name[0] == '/' {
        name
    } else if dir.len() == 0 || dir.last() == '/' {
        dir + name
    } else {
        dir.push('/') + name
    }
}

/// `s` with the extension of its file name replaced by `ext`. A path without a
/// file name stays as it is.
pub open spec fn with_extension(s: Seq<char>, ext: Seq<char>) -> Seq<char> {
    if !has_file_name(s) {
        s
    } else {
        let bare = body(s).take(tail_start(body(s)) as int) + stem_of(last_segment(s));
        if ext.len() == 0 {
            bare
        } else {
            bare.push('.') + ext
        }
    }
}

fn body_len(s: &Vec<char>) -> (n: usize)
    ensures
        n <= s@.len(),
        s@.take(n as int) == body(s@),
{
    let mut n: usize = s.len();
    assert(s@.take(n as int) =~= s@);
    while n > 1 && (s[n - 1] == '/' || (s[n - 1] == '.' && s[n - 2] == '/'))
        invariant
            n <= s@.len(),
            body(s@) == body(s@.take(n as int)),
        decreases n,
    {
        assert(s@.take(n as int).drop_last() =~= s@.take(n - 1));
        n = n - 1;
    }
    n
}

fn tail_of(s: &Vec<char>, n: usize) -> (k: usize)
    requires
        n <= s@.len(),
    ensures
        k <= n,
        k == tail_start(s@.take(n as int)),
{
    let mut k: usize = n;
    while k > 0 && s[k - 1] != '/'
        invariant
            k <= n <= s@.len(),
            tail_start(s@.take(n as int)) == tail_start(s@.take(k as int)),
        decreases k,
    {
        assert(s@.take(k as int).drop_last() =~= s@.take(k - 1));
        k = k - 1;
    }
    k
}

fn dot_of(s: &Vec<char>) -> (r: Option<usize>)
    ensures
        match r {
            Some(k) => k == last_dot(s@) && k < s@.len() && s@[k as int] == '.',
            None => last_dot(s@) == -1,
        },
{
    let mut k: usize = s.len();
    assert(s@.take(k as int) =~= s@);
    while k > 0
        invariant
            k <= s@.len(),
            last_dot(s@) == last_dot(s@.take(k as int)),
        decreases k,
    {
        if s[k - 1] == '.' {
            return Some(k - 1);
        }
        assert(s@.take(k as int).drop_last() =~= s@.take(k - 1));
        k = k - 1;
    }
    None
}

fn file_chars(path: &str) -> (r: Option<Vec<char>>)
    ensures
        match r {
            Some(name) => has_file_name(path@) && name@ == last_segment(path@),
            None => !has_file_name(path@),
        },
{
    let s: Vec<char> = chars_of(path);
    let n: usize = body_len(&s);
    let k: usize = tail_of(&s, n);
    let mut name: Vec<char> = Vec::new();
    let mut i: usize = k;
    while i < n
        invariant
            k <= i <= n <= s@.len(),
            name@ == s@.subrange(k as int, i as int),
        decreases n - i,
    {
        name.push(s[i]);
        i = i + 1;
    }
    assert(name@ =~= last_segment(path@));
    if name.len() == 0 {
        return None;
    }
    if name.len() == 1 && name[0] == '.' {
        assert(name@ =~= seq!['.']);
        return None;
    }
    if name.len() == 2 && name[0] == '.' && name[1] == '.' {
        assert(name@ =~= seq!['.', '.']);
        return None;
    }
    Some(name)
}

/// The last segment of a path, if it names something.
pub fn file_name(path: &str) -> (r: Option<String>)
    ensures
        match r {
            Some(name) => has_file_name(path@) && name@ == last_segment(path@),
            None => !has_file_name(path@),
        },
{
    match file_chars(path) {
        Some(name) => {
            let r = text_of(&name, 0, name.len());
            assert(r@ =~= name@);
            Some(r)
        },
        None => None,
    }
}

/// The file name without its extension.
pub fn file_stem(path: &str) -> (r: Option<String>)
    ensures
        match r {
            Some(stem) => has_file_name(path@) && stem@ == stem_of(last_segment(path@)),
            None => !has_file_name(path@),
        },
{
    match file_chars(path) {
        Some(name) => {
            let mut n: usize = name.len();
            match dot_of(&name) {
                Some(k) => {
                    if k > 0 {
                        n = k;
                    }
                },
                None => {},
            }
            let r = text_of(&name, 0, n);
            assert(r@ =~= stem_of(name@));
            Some(r)
        },
        None => None,
    }
}

/// What stands behind the last dot of the file name.
pub open spec fn extension_of(path: Seq<char>) -> Option<Seq<char>> {
    let name = last_segment(path);
    if has_file_name(path) && last_dot(name) > 0 {
        Some(name.skip(last_dot(name) + 1))
    } else {
        None
    }
}

/// The extension of the file name, without its dot.
pub fn extension(path: &str) -> (r: Option<String>)
    ensures
        match r {
            Some(ext) => extension_of(path@) == Some(ext@),
            None => extension_of(path@) is None,
        },
{
    match file_chars(path) {
        Some(name) => match dot_of(&name) {
            Some(k) => {
                if k > 0 {
                    let n: usize = name.len();
                    let r = text_of(&name, k + 1, n);
                    assert(r@ =~= name@.skip(k + 1));
                    Some(r)
                } else {
                    None
                }
            },
            None => None,
        },
        None => None,
    }
}

/// The path without its last segment; `None` for a root and for no path at all.
pub fn parent(path: &str) -> (r: Option<String>)
    ensures
        match r {
            Some(dir) => parent_of(path@) == Some(dir@),
            None => parent_of(path@) is None,
        },
{
    let s: Vec<char> = chars_of(path);
    let n: usize = body_len(&s);
    if n == 0 {
        return None;
    }
    if n == 1 && s[0] == '/' {
        assert(s@.take(1) =~= seq!['/']);
        return None;
    }
    assert(s@.take(n as int) != seq!['/']) by {
        if s@.take(n as int) == seq!['/'] {
            assert(s@.take(n as int).len() == n);
            assert(seq!['/'].len() == 1);
            assert(s@.take(n as int)[0] == s@[0]);
            assert(seq!['/'][0] == '/');
        }
    }
    let k: usize = tail_of(&s, n);
    let dir: String = text_of(&s, 0, k);
    assert(dir@ =~= body(path@).take(k as int));
    let d: Vec<char> = chars_of(dir.as_str());
    let m: usize = body_len(&d);
    let r = text_of(&d, 0, m);
    assert(r@ =~= d@.take(m as int));
    Some(r)
}

/// `name` in the folder `dir`.
pub fn join(dir: &str, name: &str) -> (r: String)
    ensures
        r@ == joined(dir@, name@),
{
    let n: Vec<char> = chars_of(name);
    if n.len() > 0 && n[0] == '/' {
        return owned(name);
    }
    let d: Vec<char> = chars_of(dir);
    let mut r = owned(dir);
    if d.len() > 0 && d[d.len() - 1] != '/' {
        r.push('/');
    }
    r.append(name);
    r
}

/// `path` with the extension of its file name replaced.
pub fn set_extension(path: &str, ext: &str) -> (r: String)
    ensures
        r@ == with_extension(path@, ext@),
{
    match file_chars(path) {
        Some(name) => {
            let s: Vec<char> = chars_of(path);
            let n: usize = body_len(&s);
            let k: usize = tail_of(&s, n);
            let mut r: String = text_of(&s, 0, k);
            assert(r@ =~= body(path@).take(k as int));
            let stem: String = match file_stem(path) {
                Some(stem) => stem,
                None => String::new(),
            };
            r.append(stem.as_str());
            let e: Vec<char> = chars_of(ext);
            if e.len() > 0 {
                r.push('.');
                r.append(ext);
            }
            r
        },
        None => owned(path),
    }
}

/// The segments of a path that count, in order.
pub open spec fn segments(s: Seq<char>) -> Seq<Seq<char>>
    decreases s.len(),
    via tail_is_within
{
    let k = tail_start(s) as int;
    let last = s.skip(k);
    let rest = if k == 0 {
        Seq::empty()
    } else {
        segments(s.take(k - 1))
    };
    if last.len() == 0 || last == seq!['.'] {
        rest
    } else {
        rest.push(last)
    }
}

#[via_fn]
proof fn tail_is_within(s: Seq<char>) {
    tail_bound(s);
}

proof fn tail_bound(s: Seq<char>)
    ensures
        tail_start(s) <= s.len(),
    decreases s.len(),
{
    if s.len() > 0 && s.last() != '/' {
        tail_bound(s.drop_last());
    }
}

/// The path begins at the root.
pub open spec fn rooted(s: Seq<char>) -> bool {
    s.len() > 0 && s[0] == '/'
}

/// The path begins with a `.` segment.
pub open spec fn dotted(s: Seq<char>) -> bool {
    s.len() > 0 && s[0] == '.' && (s.len() == 1 || s[1] == '/')
}

/// Two texts spell the same path.
pub open spec fn equal_paths(a: Seq<char>, b: Seq<char>) -> bool {
    rooted(a) == rooted(b) && dotted(a) == dotted(b) && segments(a) == segments(b)
}

fn segments_of(s: &Vec<char>, n: usize) -> (r: Vec<Vec<char>>)
    requires
        n <= s@.len(),
    ensures
        r@.len() == segments(s@.take(n as int)).len(),
        forall|i: int|
            0 <= i < r@.len() ==> (#[trigger] r@[i])@ == segments(s@.take(n as int))[i],
    decreases n,
{
    let k: usize = tail_of(s, n);
    let mut r: Vec<Vec<char>> = if k == 0 {
        Vec::new()
    } else {
        proof {
            assert(s@.take(n as int).take(k - 1) =~= s@.take(k - 1));
        }
        segments_of(s, k - 1)
    };
    let last: String = text_of(s, k, n);
    let last: Vec<char> = chars_of(last.as_str());
    proof {
        assert(s@.take(n as int).skip(k as int) =~= last@);
        assert(last@.len() == 1 && last@[0] == '.' ==> last@ =~= seq!['.']);
        assert(last@ == seq!['.'] ==> last@.len() == 1 && last@[0] == '.');
        if k > 0 {
            assert(s@.take(n as int).take(k - 1) =~= s@.take(k - 1));
        }
    }
    if last.len() == 0 || (last.len() == 1 && last[0] == '.') {
        r
    } else {
        r.push(last);
        r
    }
}

fn begins_at_root(s: &Vec<char>) -> (r: bool)
    ensures
        r == rooted(s@),
{
    s.len() > 0 && s[0] == '/'
}

fn begins_with_dot(s: &Vec<char>) -> (r: bool)
    ensures
        r == dotted(s@),
{
    s.len() > 0 && s[0] == '.' && (s.len() == 1 || s[1] == '/')
}

/// Whether two texts spell the same path.
pub fn same_path(a: &str, b: &str) -> (r: bool)
    ensures
        r == equal_paths(a@, b@),
{
    let s: Vec<char> = chars_of(a);
    let t: Vec<char> = chars_of(b);
    if begins_at_root(&s) != begins_at_root(&t) || begins_with_dot(&s) != begins_with_dot(&t) {
        return false;
    }
    let x: Vec<Vec<char>> = segments_of(&s, s.len());
    let y: Vec<Vec<char>> = segments_of(&t, t.len());
    proof {
        assert(s@.take(s@.len() as int) =~= a@);
        assert(t@.take(t@.len() as int) =~= b@);
    }
    if x.len() != y.len() {
        return false;
    }
    let mut i: usize = 0;
    while i < x.len()
        invariant
            i <= x@.len(),
            x@.len() == y@.len(),
            x@.len() == segments(a@).len(),
            y@.len() == segments(b@).len(),
            forall|k: int| 0 <= k < x@.len() ==> (#[trigger] x@[k])@ == segments(a@)[k],
            forall|k: int| 0 <= k < y@.len() ==> (#[trigger] y@[k])@ == segments(b@)[k],
            forall|k: int| 0 <= k < i ==> (#[trigger] x@[k])@ == y@[k]@,
        decreases x@.len() - i,
    {
        if !same_chars(&x[i], &y[i]) {
            return false;
        }
        i = i + 1;
    }
    assert(segments(a@) =~= segments(b@)) by {
        assert forall|k: int| 0 <= k < x@.len() implies segments(a@)[k] == segments(b@)[k] by {
            assert(x@[k]@ == y@[k]@);
        }
    }
    true
}

/// A file name proper: not empty, without slashes, and not `.` or `..`.
pub open spec fn plain_name(name: Seq<char>) -> bool {
    &&& name.len() > 0
    &&& name != seq!['.']
    &&& name != seq!['.', '.']
    &&& forall|i: int| 0 <= i < name.len() ==> name[i] != '/'
}

proof fn tail_after(pre: Seq<char>, name: Seq<char>)
    requires
        forall|i: int| 0 <= i < name.len() ==> name[i] != '/',
    ensures
        tail_start(pre + name) == tail_start(pre),
    decreases name.len(),
{
    if name.len() == 0 {
        assert(pre + name =~= pre);
    } else {
        tail_after(pre, name.drop_last());
        assert((pre + name).drop_last() =~= pre + name.drop_last());
    }
}

/// The name of a file in a folder is the same whatever the folder.
pub proof fn name_in_a_folder(dir: Seq<char>, name: Seq<char>)
    requires
        plain_name(name),
    ensures
        has_file_name(joined(dir, name)),
        last_segment(joined(dir, name)) == name,
        body(joined(dir, name)) == joined(dir, name),
        joined(dir, name).len() == tail_start(joined(dir, name)) + name.len(),
{
    let s = joined(dir, name);
    let pre = if dir.len() == 0 || dir.last() == '/' { dir } else { dir.push('/') };
    assert(s =~= pre + name);
    tail_after(pre, name);
    assert(tail_start(pre) == pre.len());
    assert(s.last() == name.last());
    if s.len() > 1 && s.last() == '.' && s[s.len() - 2] == '/' {
        if name.len() > 1 {
            assert(s[s.len() - 2] == name[name.len() - 2]);
        } else {
            assert(name =~= seq!['.']);
        }
        assert(false);
    }
    assert(body(s) == s);
    assert(s.skip(pre.len() as int) =~= name);
}

proof fn no_slash_after(s: Seq<char>)
    ensures
        tail_start(s) <= s.len(),
        forall|i: int| tail_start(s) <= i < s.len() ==> s[i] != '/',
    decreases s.len(),
{
    if s.len() > 0 && s.last() != '/' {
        no_slash_after(s.drop_last());
        assert forall|i: int| tail_start(s) <= i < s.len() implies s[i] != '/' by {
            if i < s.len() - 1 {
                assert(s.drop_last()[i] == s[i]);
            }
        }
    }
}

/// The name of a file is a file name proper.
pub proof fn file_names_are_plain(s: Seq<char>)
    requires
        has_file_name(s),
    ensures
        plain_name(last_segment(s)),
{
    no_slash_after(body(s));
    let name = last_segment(s);
    assert forall|i: int| 0 <= i < name.len() implies name[i] != '/' by {
        assert(name[i] == body(s)[tail_start(body(s)) + i]);
    }
}

/// The last dot of a name is one of its characters.
pub proof fn last_dot_is_inside(name: Seq<char>)
    ensures
        -1 <= last_dot(name) < name.len(),
        last_dot(name) >= 0 ==> name[last_dot(name)] == '.',
    decreases name.len(),
{
    if name.len() > 0 && name.last() != '.' {
        last_dot_is_inside(name.drop_last());
    }
}

proof fn dot_free(name: Seq<char>)
    requires
        forall|i: int| 0 <= i < name.len() ==> name[i] != '.',
    ensures
        last_dot(name) == -1,
    decreases name.len(),
{
    if name.len() > 0 {
        dot_free(name.drop_last());
    }
}

/// Giving a name without dots an extension in a folder: the file is called by both.
pub proof fn extension_is_added(dir: Seq<char>, name: Seq<char>, ext: Seq<char>)
    requires
        plain_name(name),
        forall|i: int| 0 <= i < name.len() ==> name[i] != '.',
        ext.len() > 0,
        forall|i: int| 0 <= i < ext.len() ==> ext[i] != '/',
    ensures
        with_extension(joined(dir, name), ext) == joined(dir, name.push('.') + ext),
        last_segment(with_extension(joined(dir, name), ext)) == name.push('.') + ext,
        has_file_name(with_extension(joined(dir, name), ext)),
{
    name_in_a_folder(dir, name);
    dot_free(name);
    let s = joined(dir, name);
    let full = name.push('.') + ext;
    assert(plain_name(full)) by {
        assert(full.len() >= 3);
        assert(full[0] == name[0]);
        if full =~= seq!['.', '.'] {
            assert(full[0] == '.');
        }
        assert forall|i: int| 0 <= i < full.len() implies full[i] != '/' by {
            if i < name.len() {
                assert(full[i] == name[i]);
            } else if i > name.len() {
                assert(full[i] == ext[i - name.len() - 1]);
            }
        }
    }
    assert(s.take(tail_start(s) as int) + name =~= s) by {
        assert(s.skip(tail_start(s) as int) =~= name);
    }
    assert(with_extension(s, ext) =~= joined(dir, full));
    name_in_a_folder(dir, full);
}

proof fn nothing_after_the_last_dot(name: Seq<char>, i: int)
    requires
        last_dot(name) < i < name.len(),
    ensures
        name[i] != '.',
    decreases name.len(),
{
    last_dot_is_inside(name);
    if name.last() != '.' && i < name.len() - 1 {
        nothing_after_the_last_dot(name.drop_last(), i);
        assert(name.drop_last()[i] == name[i]);
    }
}

/// A file name is its stem, a dot and its extension, and the extension has no further dot.
/// A name whose only dot comes first has none, nor has one without a dot.
pub proof fn stem_and_extension_make_the_name(path: Seq<char>)
    requires
        has_file_name(path),
    ensures
        ({
            let (name, stem) = (last_segment(path), stem_of(last_segment(path)));
            match extension_of(path) {
                Some(ext) => {
                    &&& stem.len() > 0
                    &&& name == stem.push('.') + ext
                    &&& forall|i: int| 0 <= i < ext.len() ==> #[trigger] ext[i] != '.'
                },
                None => {
                    &&& name == stem
                    &&& forall|i: int| 1 <= i < name.len() ==> #[trigger] name[i] != '.'
                },
            }
        }),
{
    let name = last_segment(path);
    let k = last_dot(name);
    last_dot_is_inside(name);
    match extension_of(path) {
        Some(ext) => {
            assert(name =~= stem_of(name).push('.') + ext);
            assert forall|i: int| 0 <= i < ext.len() implies #[trigger] ext[i] != '.' by {
                nothing_after_the_last_dot(name, k + 1 + i);
            }
        },
        None => {
            assert forall|i: int| 1 <= i < name.len() implies #[trigger] name[i] != '.' by {
                nothing_after_the_last_dot(name, i);
            }
        },
    }
}

proof fn a_slash_more(dir: Seq<char>)
    requires
        dir.len() > 0,
    ensures
        body(dir.push('/')) == body(dir),
        segments(dir.push('/')) == segments(dir),
{
    let s = dir.push('/');
    assert(s.drop_last() =~= dir);
    assert(s.skip(s.len() as int).len() == 0);
    assert(s.take(s.len() - 1) =~= dir);
}

/// The folder of a file in a folder is that folder, and the file is its last part.
pub proof fn a_file_is_in_its_folder(dir: Seq<char>, name: Seq<char>)
    requires
        plain_name(name),
        dir.len() > 0,
    ensures
        parent_of(joined(dir, name)) == Some(body(dir)),
        segments(joined(dir, name)) == segments(dir).push(name),
{
    name_in_a_folder(dir, name);
    let s = joined(dir, name);
    let k = tail_start(s) as int;
    assert(name[0] != '/');
    let pre = if dir.last() == '/' {
        dir
    } else {
        dir.push('/')
    };
    assert(s =~= pre + name);
    assert(s.take(k) =~= pre);
    assert(s.skip(k) =~= name);
    assert(pre.last() == '/');
    if dir.last() == '/' {
        assert(dir =~= dir.drop_last().push('/'));
    }
    a_slash_more(dir);
    assert(s != seq!['/']) by {
        assert(s.last() == name.last());
    }
    let front = pre.drop_last();
    assert(pre =~= front.push('/'));
    assert(s.take(k - 1) =~= front);
    if front.len() > 0 {
        a_slash_more(front);
    } else {
        assert(pre.skip(1).len() == 0);
        assert(pre.take(0) =~= front);
    }
    if dir.last() != '/' {
        assert(front =~= dir);
    }
}

/// Two files in one folder are the same only by the same name; a slash at the end of a
/// path changes nothing.
pub proof fn paths_differ_by_their_names(dir: Seq<char>, a: Seq<char>, b: Seq<char>)
    requires
        plain_name(a),
        plain_name(b),
        dir.len() > 0,
    ensures
        equal_paths(joined(dir, a), joined(dir, b)) <==> a == b,
        equal_paths(dir.push('/'), dir) || dir == seq!['.'],
{
    a_file_is_in_its_folder(dir, a);
    a_file_is_in_its_folder(dir, b);
    a_slash_more(dir);
    let (x, y) = (segments(dir).push(a), segments(dir).push(b));
    if x == y {
        assert(x.last() == y.last());
    }
}

/// Another extension takes the place of the one that a file has.
pub proof fn an_extension_is_exchanged(dir: Seq<char>, stem: Seq<char>, old: Seq<char>, new: Seq<char>)
    requires
        plain_name(stem),
        forall|i: int| 0 <= i < old.len() ==> old[i] != '/' && old[i] != '.',
        new.len() > 0,
        forall|i: int| 0 <= i < new.len() ==> new[i] != '/' && new[i] != '.',
    ensures
        with_extension(joined(dir, stem.push('.') + old), new) == joined(
            dir,
            stem.push('.') + new,
        ),
        extension_of(joined(dir, stem.push('.') + old)) == Some(old),
        last_dot(stem.push('.') + old) == stem.len(),
{
    let (file, other) = (stem.push('.') + old, stem.push('.') + new);
    with_an_extension(stem, old);
    with_an_extension(stem, new);
    name_in_a_folder(dir, file);
    name_in_a_folder(dir, other);
    let (s, t) = (joined(dir, file), joined(dir, other));
    let k = tail_start(s) as int;
    assert(file.take(stem.len() as int) =~= stem);
    assert(file.skip(stem.len() as int + 1) =~= old);
    assert(file[0] == stem[0] && other[0] == stem[0]);
    let pre = if dir.len() == 0 || dir.last() == '/' {
        dir
    } else {
        dir.push('/')
    };
    assert(s =~= pre + file);
    assert(t =~= pre + other);
    assert(s.take(k) =~= pre);
    assert((pre + stem).push('.') + new =~= pre + other);
}

proof fn with_an_extension(stem: Seq<char>, ext: Seq<char>)
    requires
        plain_name(stem),
        forall|i: int| 0 <= i < ext.len() ==> ext[i] != '/' && ext[i] != '.',
    ensures
        plain_name(stem.push('.') + ext),
        last_dot(stem.push('.') + ext) == stem.len(),
    decreases ext.len(),
{
    let file = stem.push('.') + ext;
    if ext.len() == 0 {
        assert(file =~= stem.push('.'));
        if file == seq!['.', '.'] {
            assert(file[0] == stem[0]);
            assert(stem =~= seq!['.']);
        }
    } else {
        with_an_extension(stem, ext.drop_last());
        assert(file.drop_last() =~= stem.push('.') + ext.drop_last());
        assert(file.last() == ext.last());
        assert forall|i: int| 0 <= i < file.len() implies file[i] != '/' by {
            if i < file.len() - 1 {
                assert(file.drop_last()[i] == file[i]);
            }
        }
        assert(file.len() >= 3);
    }
}

} // verus!
