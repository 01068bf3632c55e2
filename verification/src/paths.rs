//! File paths as text, with `/` between the components.
//!
//! Repeated separators, a trailing separator and `.` components after the
//! first name nothing, as the operating system reads them.

use crate::parse::chars_of;
use vstd::prelude::*;
use vstd::string::StringExecFns;

verus! {

/// The end of `p[..n]` without trailing separators and `.` components. The
/// root's own separator stays.
pub open spec fn body_end(p: Seq<char>, n: int) -> int
    decreases n,
{
    if n <= 0 {
        0
    } else if p[n - 1] == '/' {
        if n == 1 { 1 } else { body_end(p, n - 1) }
    } else if p[n - 1] == '.' && n >= 2 && p[n - 2] == '/' {
        body_end(p, n - 1)
    } else {
        n
    }
}

/// The place after the last separator of `p[..n]`.
pub open spec fn name_start(p: Seq<char>, n: int) -> int
    decreases n,
{
    if n <= 0 {
        0
    } else if p[n - 1] == '/' {
        n
    } else {
        name_start(p, n - 1)
    }
}

/// Whether a component names a file: it is not empty, `.` or `..`.
pub open spec fn names_file(name: Seq<char>) -> bool {
    name.len() > 0 && name != seq!['.'] && name != seq!['.', '.']
}

/// The last component.
pub open spec fn last_component(p: Seq<char>) -> Seq<char> {
    let e = body_end(p, p.len() as int);
    p.subrange(name_start(p, e), e)
}

/// The final component where it names a file, else nothing.
pub open spec fn file_name_of(p: Seq<char>) -> Seq<char> {
    if names_file(last_component(p)) { last_component(p) } else { Seq::empty() }
}

/// The path without its final component, or nothing where there is none.
pub open spec fn parent_of(p: Seq<char>) -> Seq<char> {
    let s = name_start(p, body_end(p, p.len() as int));
    if last_component(p).len() == 0 { Seq::empty() } else { p.take(body_end(p, s)) }
}

/// Where the name's extension begins (at its dot): the last dot of
/// `p[..n]` after `start`, or `end` where there is none.
pub open spec fn extension_start(p: Seq<char>, start: int, n: int, end: int) -> int
    decreases n - start,
{
    if n <= start + 1 {
        end
    } else if p[n - 1] == '.' {
        n - 1
    } else {
        extension_start(p, start, n - 1, end)
    }
}

/// The path with its extension replaced, or added where it has none. A path
/// that names no file stays as it is.
pub open spec fn with_extension(p: Seq<char>, ext: Seq<char>) -> Seq<char> {
    let e = body_end(p, p.len() as int);
    let s = name_start(p, e);
    if names_file(last_component(p)) {
        p.take(extension_start(p, s, e, e)).push('.') + ext
    } else {
        p
    }
}

/// The file's name without its extension.
pub open spec fn stem_of(p: Seq<char>) -> Seq<char> {
    let e = body_end(p, p.len() as int);
    let s = name_start(p, e);
    p.subrange(s, extension_start(p, s, e, e))
}

proof fn lemma_body_end(p: Seq<char>, n: int)
    requires
        0 <= n <= p.len(),
    ensures
        0 <= body_end(p, n) <= n,
    decreases n,
{
    if n > 1 && (p[n - 1] == '/' || (p[n - 1] == '.' && p[n - 2] == '/')) {
        lemma_body_end(p, n - 1);
    }
}

proof fn lemma_name_start(p: Seq<char>, n: int)
    requires
        0 <= n <= p.len(),
    ensures
        0 <= name_start(p, n) <= n,
        forall|i: int| name_start(p, n) <= i < n ==> #[trigger] p[i] != '/',
        name_start(p, n) > 0 ==> p[name_start(p, n) - 1] == '/',
    decreases n,
{
    if n > 0 && p[n - 1] != '/' {
        lemma_name_start(p, n - 1);
    }
}

fn find_body_end(p: &Vec<char>, from: usize) -> (r: usize)
    requires
        from <= p@.len(),
    ensures
        r == body_end(p@, from as int),
        r <= from,
{
    proof {
        lemma_body_end(p@, from as int);
    }
    let mut n: usize = from;
    while n > 0
        invariant
            n <= from <= p@.len(),
            body_end(p@, n as int) == body_end(p@, from as int),
        decreases n,
    {
        if p[n - 1] == '/' {
            if n == 1 {
                return 1;
            }
        } else if !(p[n - 1] == '.' && n >= 2 && p[n - 2] == '/') {
            return n;
        }
        n = n - 1;
    }
    0
}

fn find_name_start(p: &Vec<char>, from: usize) -> (r: usize)
    requires
        from <= p@.len(),
    ensures
        r == name_start(p@, from as int),
        r <= from,
{
    let mut n: usize = from;
    while n > 0
        invariant
            n <= from <= p@.len(),
            name_start(p@, n as int) == name_start(p@, from as int),
        decreases n,
    {
        if p[n - 1] == '/' {
            return n;
        }
        n = n - 1;
    }
    0
}

/// The text of `p[from..to]`.
pub fn text_of(p: &Vec<char>, from: usize, to: usize) -> (r: String)
    requires
        from <= to <= p@.len(),
    ensures
        r@ == p@.subrange(from as int, to as int),
{
    let mut r = String::new();
    let mut i: usize = from;
    assert(r@ =~= p@.subrange(from as int, from as int));
    while i < to
        invariant
            from <= i <= to <= p@.len(),
            r@ == p@.subrange(from as int, i as int),
        decreases to - i,
    {
        r.push(p[i]);
        i = i + 1;
        assert(r@ =~= p@.subrange(from as int, i as int));
    }
    r
}

fn is_file_name(p: &Vec<char>, from: usize, to: usize) -> (r: bool)
    requires
        from <= to <= p@.len(),
    ensures
        r == names_file(p@.subrange(from as int, to as int)),
{
    let ghost name = p@.subrange(from as int, to as int);
    assert(seq!['.'].len() == 1 && seq!['.'][0] == '.');
    assert(seq!['.', '.'].len() == 2 && seq!['.', '.'][0] == '.' && seq!['.', '.'][1] == '.');
    if to == from {
        return false;
    }
    if to - from == 1 {
        assert(name[0] == p@[from as int]);
        assert(p@[from as int] == '.' ==> name =~= seq!['.']);
        return p[from] != '.';
    }
    if to - from == 2 {
        assert(name[0] == p@[from as int] && name[1] == p@[from + 1]);
        assert(p@[from as int] == '.' && p@[from + 1] == '.' ==> name =~= seq!['.', '.']);
        return !(p[from] == '.' && p[from + 1] == '.');
    }
    true
}

/// The final component of a path, or nothing where it names no file.
pub fn file_name(path: &str) -> (r: String)
    ensures
        r@ == file_name_of(path@),
{
    let p = chars_of(path);
    let e: usize = find_body_end(&p, p.len());
    let s: usize = find_name_start(&p, e);
    if is_file_name(&p, s, e) {
        text_of(&p, s, e)
    } else {
        String::new()
    }
}

/// The directory a path lies in, or nothing where there is none.
pub fn parent(path: &str) -> (r: String)
    ensures
        r@ == parent_of(path@),
{
    let p = chars_of(path);
    let e: usize = find_body_end(&p, p.len());
    let s: usize = find_name_start(&p, e);
    if e == s {
        return String::new();
    }
    let end: usize = find_body_end(&p, s);
    let r = text_of(&p, 0, end);
    assert(r@ =~= parent_of(path@));
    r
}

/// A path with its file's extension replaced, or one added; a path that
/// names no file stays as it is.
pub fn replace_extension(path: &str, ext: &str) -> (r: String)
    ensures
        r@ == with_extension(path@, ext@),
{
    let p = chars_of(path);
    let e: usize = find_body_end(&p, p.len());
    let s: usize = find_name_start(&p, e);
    if !is_file_name(&p, s, e) {
        return path.to_owned();
    }
    let mut n: usize = e;
    let mut cut: usize = e;
    while n > s + 1
        invariant_except_break
            cut == e,
        invariant
            s < e <= p@.len(),
            s + 1 <= n <= e,
            extension_start(p@, s as int, e as int, e as int) == extension_start(
                p@,
                s as int,
                n as int,
                e as int,
            ),
        ensures
            cut == extension_start(p@, s as int, e as int, e as int),
            cut <= e,
        decreases n,
    {
        if p[n - 1] == '.' {
            cut = n - 1;
            break;
        }
        n = n - 1;
    }
    let mut r = text_of(&p, 0, cut);
    r.push('.');
    r.append(ext);
    assert(r@ =~= with_extension(path@, ext@));
    r
}

/// Where a clip's mask is saved: beside it, `example.mov` as
/// `example.mask.png`.
pub fn output_path(video: &str) -> (r: String)
    ensures
        r@ == with_extension(video@, "mask.png"@),
{
    replace_extension(video, "mask.png")
}

/// Where a crop's video pixels land, beside the mask they match.
pub fn crop_output_path(video: &str) -> (r: String)
    ensures
        r@ == with_extension(video@, "crop.png"@),
{
    replace_extension(video, "crop.png")
}

/// A name starts where the last separator says, whatever follows it.
proof fn lemma_name_start_is(p: Seq<char>, n: int, s: int)
    requires
        0 <= s <= n <= p.len(),
        forall|i: int| s <= i < n ==> #[trigger] p[i] != '/',
        s > 0 ==> p[s - 1] == '/',
    ensures
        name_start(p, n) == s,
{
    lemma_name_start(p, n);
    let t = name_start(p, n);
    if t < s {
        assert(p[s - 1] != '/');
    }
    if s < t {
        assert(p[t - 1] != '/');
    }
}

/// What a path ends with is a matter of its beginning alone.
proof fn lemma_body_end_of_prefix(p: Seq<char>, q: Seq<char>, n: int)
    requires
        0 <= n <= p.len(),
        n <= q.len(),
        forall|i: int| 0 <= i < n ==> #[trigger] p[i] == q[i],
    ensures
        body_end(p, n) == body_end(q, n),
    decreases n,
{
    if n > 0 {
        assert(p[n - 1] == q[n - 1]);
        if n >= 2 {
            assert(p[n - 2] == q[n - 2]);
        }
        lemma_body_end_of_prefix(p, q, n - 1);
    }
}

proof fn lemma_extension_start(p: Seq<char>, start: int, n: int, end: int)
    requires
        0 <= start <= end <= p.len(),
        n <= end,
    ensures
        ({
            let k = extension_start(p, start, n, end);
            &&& start <= k <= end
            &&& start < end ==> start < k
            &&& k < end ==> p[k] == '.'
            &&& forall|i: int| k < i < n ==> #[trigger] p[i] != '.'
        }),
    decreases n - start,
{
    if n > start + 1 && p[n - 1] != '.' {
        lemma_extension_start(p, start, n - 1, end);
    }
}

/// Whether a text can be a file's extension: it is not empty, separates
/// nothing and ends in no dot.
pub open spec fn is_extension(ext: Seq<char>) -> bool {
    ext.len() > 0 && !ext.contains('/') && ext.last() != '.'
}

/// A file saved beside a clip lies in the clip's directory, under the clip's
/// name with another extension; where that holds a dot, the name is not the
/// clip's own.
pub proof fn saved_files_lie_beside_the_clip(p: Seq<char>, ext: Seq<char>)
    requires
        names_file(last_component(p)),
        is_extension(ext),
    ensures
        parent_of(with_extension(p, ext)) == parent_of(p),
        file_name_of(with_extension(p, ext)) == stem_of(p).push('.') + ext,
        ext.contains('.') ==> file_name_of(with_extension(p, ext)) != file_name_of(p),
{
    let e = body_end(p, p.len() as int);
    let s = name_start(p, e);
    lemma_body_end(p, p.len() as int);
    lemma_name_start(p, e);
    lemma_extension_start(p, s, e, e);
    let k = extension_start(p, s, e, e);
    let q = with_extension(p, ext);
    let n = q.len() as int;
    assert(q[n - 1] == ext.last());
    assert(ext.contains(ext.last()));
    assert(body_end(q, n) == n);
    assert forall|i: int| s <= i < n implies #[trigger] q[i] != '/' by {
        if i < k {
            assert(q[i] == p[i]);
        } else if i > k {
            assert(q[i] == ext[i - k - 1]);
        }
    }
    lemma_name_start_is(q, n, s);
    lemma_body_end(q, s);
    lemma_body_end_of_prefix(p, q, s);
    assert(parent_of(q) =~= parent_of(p));
    let name = q.subrange(s, n);
    assert(name =~= stem_of(p).push('.') + ext);
    assert(k > s);
    assert(name[k - s] == '.' && name.last() != '.');
    assert(names_file(name)) by {
        if name == seq!['.'] {
            assert(name.last() == '.');
        }
        if name == seq!['.', '.'] {
            assert(name.last() == '.');
        }
    }
    if ext.contains('.') && name == last_component(p) {
        let j = choose|j: int| 0 <= j < ext.len() && ext[j] == '.';
        let at = k + 1 + j;
        assert(name[at - s] == '.');
        assert(last_component(p)[at - s] == p[at]);
    }
}

/// The last dot of a name that is not its first character starts the
/// extension.
proof fn lemma_extension_start_is(p: Seq<char>, start: int, n: int, end: int, k: int)
    requires
        start < k < n,
        p[k] == '.',
        forall|i: int| k < i < n ==> #[trigger] p[i] != '.',
    ensures
        extension_start(p, start, n, end) == k,
    decreases n - start,
{
    if n - 1 > k {
        lemma_extension_start_is(p, start, n - 1, end, k);
    }
}

proof fn lemma_no_extension(p: Seq<char>, start: int, n: int, end: int)
    requires
        forall|i: int| start < i < n ==> #[trigger] p[i] != '.',
    ensures
        extension_start(p, start, n, end) == end,
    decreases n - start,
{
    if n > start + 1 {
        lemma_no_extension(p, start, n - 1, end);
    }
}

/// Whether a text is what stands before a file's name in a path: nothing, or a
/// directory with its separator.
pub open spec fn is_prefix(dir: Seq<char>) -> bool {
    dir.len() == 0 || dir.last() == '/'
}

proof fn lemma_split(dir: Seq<char>, name: Seq<char>)
    requires
        is_prefix(dir),
        names_file(name),
        !name.contains('/'),
    ensures
        ({
            let p = dir + name;
            let n = p.len() as int;
            &&& body_end(p, n) == n
            &&& name_start(p, n) == dir.len()
            &&& last_component(p) == name
        }),
{
    let p = dir + name;
    let n = p.len() as int;
    let s = dir.len() as int;
    assert(p[n - 1] == name.last());
    assert(name.contains(name.last()));
    if name.last() == '.' && n >= 2 && p[n - 2] == '/' {
        if name.len() == 1 {
            assert(name =~= seq!['.']);
        } else {
            assert(p[n - 2] == name[name.len() - 2]);
            assert(name.contains(name[name.len() - 2]));
        }
    }
    assert forall|i: int| s <= i < n implies #[trigger] p[i] != '/' by {
        assert(p[i] == name[i - s]);
        assert(name.contains(name[i - s]));
    }
    if s > 0 {
        assert(p[s - 1] == dir.last());
    }
    lemma_name_start_is(p, n, s);
    assert(p.subrange(s, n) =~= name);
}

/// A path is a directory and a name: the name is what stands after the last
/// separator, and the directory what stands before it, without the separator
/// where that is not all there is.
pub proof fn a_path_is_a_directory_and_a_name(dir: Seq<char>, name: Seq<char>)
    requires
        name.len() > 0 && name != seq!['.'] && name != seq!['.', '.'],
        !name.contains('/'),
        dir.len() > 0 ==> dir.last() != '/' && !(dir.last() == '.' && dir.len() >= 2 && dir[dir.len()
            - 2] == '/'),
    ensures
        file_name_of(name) == name,
        parent_of(name) == Seq::<char>::empty(),
        file_name_of(seq!['/'] + name) == name,
        parent_of(seq!['/'] + name) == seq!['/'],
        dir.len() > 0 ==> file_name_of(dir.push('/') + name) == name,
        dir.len() > 0 ==> parent_of(dir.push('/') + name) == dir,
{
    assert(Seq::<char>::empty() + name =~= name);
    lemma_split(Seq::empty(), name);
    assert(parent_of(name) =~= Seq::<char>::empty());
    lemma_split(seq!['/'], name);
    let r = seq!['/'] + name;
    assert(r[0] == '/');
    assert(parent_of(r) =~= seq!['/']);
    if dir.len() > 0 {
        let d = dir.push('/');
        lemma_split(d, name);
        let p = d + name;
        let s = d.len() as int;
        assert(p[s - 1] == '/');
        assert(p[s - 2] == dir.last());
        if s >= 3 {
            assert(p[s - 3] == dir[dir.len() - 2]);
        }
        assert(body_end(p, s - 1) == s - 1);
        assert(body_end(p, s) == s - 1);
        assert(p.take(s - 1) =~= dir);
    }
}

/// A saved file's name is the clip's with another extension: what stands after
/// the last dot is replaced, and a name without one gets one.
pub proof fn saving_replaces_the_extension(
    dir: Seq<char>,
    stem: Seq<char>,
    ext: Seq<char>,
    new: Seq<char>,
)
    requires
        is_prefix(dir),
        stem.len() > 0,
        !stem.contains('/'),
        ext.len() > 0,
        !ext.contains('/'),
        !ext.contains('.'),
    ensures
        with_extension(dir + stem.push('.') + ext, new) == dir + stem.push('.') + new,
        !stem.contains('.') ==> with_extension(dir + stem, new) == dir + stem.push('.') + new,
{
    let name = stem.push('.') + ext;
    let p = dir + stem.push('.') + ext;
    assert(p =~= dir + name);
    assert(name.last() == ext.last());
    assert(ext.contains(ext.last()));
    assert(!name.contains('/')) by {
        if name.contains('/') {
            let i = choose|i: int| 0 <= i < name.len() && name[i] == '/';
            if i < stem.len() {
                assert(stem.contains(stem[i]));
            } else {
                assert(i > stem.len());
                assert(ext.contains(ext[i - stem.len() - 1]));
            }
        }
    }
    assert(names_file(name)) by {
        if name == seq!['.'] || name == seq!['.', '.'] {
            assert(name.last() == '.');
        }
    }
    lemma_split(dir, name);
    let (s, e) = (dir.len() as int, p.len() as int);
    let k = s + stem.len();
    assert(p[k] == '.');
    assert forall|i: int| k < i < e implies #[trigger] p[i] != '.' by {
        assert(p[i] == ext[i - k - 1]);
        assert(ext.contains(ext[i - k - 1]));
    }
    lemma_extension_start_is(p, s, e, e, k);
    assert(with_extension(p, new) =~= dir + stem.push('.') + new);
    if !stem.contains('.') {
        let q = dir + stem;
        assert(names_file(stem)) by {
            if stem == seq!['.'] || stem == seq!['.', '.'] {
                assert(stem.contains(stem[0]));
            }
        }
        lemma_split(dir, stem);
        let n = q.len() as int;
        assert forall|i: int| s < i < n implies #[trigger] q[i] != '.' by {
            assert(q[i] == stem[i - s]);
            assert(stem.contains(stem[i - s]));
        }
        lemma_no_extension(q, s, n, n);
        assert(q.take(n) =~= q);
        assert(with_extension(q, new) =~= dir + stem.push('.') + new);
    }
}

/// A clip's mask and crop lie beside it, under its name, and none of the
/// three is another.
pub proof fn a_clip_and_its_exports_are_three_files(p: Seq<char>)
    requires
        names_file(last_component(p)),
    ensures
        ({
            let mask = with_extension(p, "mask.png"@);
            let crop = with_extension(p, "crop.png"@);
            &&& parent_of(mask) == parent_of(p) && parent_of(crop) == parent_of(p)
            &&& file_name_of(mask) == stem_of(p) + ".mask.png"@
            &&& file_name_of(crop) == stem_of(p) + ".crop.png"@
            &&& file_name_of(mask) != file_name_of(p) && mask != p
            &&& file_name_of(crop) != file_name_of(p) && crop != p
            &&& file_name_of(mask) != file_name_of(crop) && mask != crop
        }),
{
    reveal_strlit("mask.png");
    reveal_strlit("crop.png");
    reveal_strlit(".mask.png");
    reveal_strlit(".crop.png");
    assert("mask.png"@[4] == '.' && "crop.png"@[4] == '.');
    saved_files_lie_beside_the_clip(p, "mask.png"@);
    saved_files_lie_beside_the_clip(p, "crop.png"@);
    assert(stem_of(p).push('.') + "mask.png"@ =~= stem_of(p) + ".mask.png"@);
    assert(stem_of(p).push('.') + "crop.png"@ =~= stem_of(p) + ".crop.png"@);
    let k = stem_of(p).len() as int + 1;
    assert((stem_of(p) + ".mask.png"@)[k] == 'm');
    assert((stem_of(p) + ".crop.png"@)[k] == 'c');
}

} // verus!
