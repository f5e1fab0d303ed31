//! Unix path handling on character sequences: components, joining, prefix stripping and
//! shortening for display.
use vstd::prelude::*;
use crate::text::{chars_of, string_of, chars_eq};

verus! {

/// The character sequences held by a vector of character vectors.
pub open spec fn views(v: Seq<Vec<char>>) -> Seq<Seq<char>> {
    v.map_values(|x: Vec<char>| x@)
}

/// Splits `s` at every `/` (the pieces between separators, empty ones included).
pub open spec fn split_slash(s: Seq<char>) -> Seq<Seq<char>>
    decreases s.len(),
{
    if s.len() == 0 {
        seq![seq![]]
    } else {
        let p = split_slash(s.drop_last());
        if s.last() == '/' {
            p.push(seq![])
        } else {
            p.update(p.len() - 1, p.last().push(s.last()))
        }
    }
}

/// A piece between separators that names a component: not empty and not `.`.
pub open spec fn keep_segment(seg: Seq<char>) -> bool {
    seg.len() > 0 && seg != seq!['.']
}

/// The path starts at the root.
pub open spec fn has_root(s: Seq<char>) -> bool {
    s.len() > 0 && s[0] == '/'
}

/// The path is relative and starts with a `.` component.
pub open spec fn leading_cur_dir(s: Seq<char>) -> bool {
    !has_root(s) && s.len() > 0 && s[0] == '.' && (s.len() == 1 || s[1] == '/')
}

/// The components of a Unix path, each written as `Path::components` shows it through
/// `as_os_str`: `/` for the root, `.` for a leading current directory, otherwise the name.
pub open spec fn components(s: Seq<char>) -> Seq<Seq<char>> {
    (if has_root(s) {
        seq![seq!['/']]
    } else {
        seq![]
    }) + (if leading_cur_dir(s) {
        seq![seq!['.']]
    } else {
        seq![]
    }) + named_segments(split_slash(s))
}

/// The pieces that name components, in order.
pub open spec fn named_segments(segs: Seq<Seq<char>>) -> Seq<Seq<char>>
    decreases segs.len(),
{
    if segs.len() == 0 {
        segs
    } else if keep_segment(segs.last()) {
        named_segments(segs.drop_last()).push(segs.last())
    } else {
        named_segments(segs.drop_last())
    }
}

/// `PathBuf::push` on Unix: an absolute `p` replaces `base`; otherwise `p` is appended,
/// with a separator when `base` is not empty and does not end in one.
pub open spec fn push_path(base: Seq<char>, p: Seq<char>) -> Seq<char> {
    if has_root(p) {
        p
    } else if base.len() > 0 && base.last() != '/' {
        base + seq!['/'] + p
    } else {
        base + p
    }
}

/// `base` with each of `cs` pushed in turn.
pub open spec fn push_all(base: Seq<char>, cs: Seq<Seq<char>>) -> Seq<char>
    decreases cs.len(),
{
    if cs.len() == 0 {
        base
    } else {
        push_path(push_all(base, cs.drop_last()), cs.last())
    }
}

fn split_slash_exec(v: &[char]) -> (r: Vec<Vec<char>>)
    ensures
        views(r@) == split_slash(v@),
{
    let mut done: Vec<Vec<char>> = Vec::new();
    let mut cur: Vec<char> = Vec::new();
    let mut i: usize = 0;
    assert(v@.take(0) =~= Seq::<char>::empty());
    while i < v.len()
        invariant
            i <= v.len(),
            views(done@).push(cur@) == split_slash(v@.take(i as int)),
        decreases v.len() - i,
    {
        let ghost before = v@.take(i as int);
        assert(v@.take(i as int + 1).drop_last() == before);
        if v[i] == '/' {
            let c = cur;
            proof {
                assert(views(done@).push(c@).push(Seq::<char>::empty()) == split_slash(
                    v@.take(i as int + 1),
                ));
            }
            let ghost d0 = done@;
            done.push(c);
            cur = Vec::new();
            assert(views(done@) =~= views(d0).push(c@));
            assert(views(done@).push(cur@) =~= views(d0).push(c@).push(Seq::<char>::empty()));
        } else {
            cur.push(v[i]);
            assert(views(done@).push(cur@) =~= split_slash(v@.take(i as int + 1)));
        }
        i = i + 1;
    }
    assert(v@.take(v.len() as int) == v@);
    let ghost d = done@;
    let ghost c = cur@;
    done.push(cur);
    assert(views(done@) =~= views(d).push(c));
    done
}

/// The components of the path `s` (see `components`).
pub fn path_components(s: &[char]) -> (r: Vec<Vec<char>>)
    ensures
        views(r@) == components(s@),
{
    let mut r: Vec<Vec<char>> = Vec::new();
    let rooted = s.len() > 0 && s[0] == '/';
    if rooted {
        let root = vec!['/'];
        assert(root@ =~= seq!['/']);
        r.push(root);
    }
    if !rooted && s.len() > 0 && s[0] == '.' && (s.len() == 1 || s[1] == '/') {
        let cur = vec!['.'];
        assert(cur@ =~= seq!['.']);
        let ghost r0 = r@;
        r.push(cur);
        assert(views(r@) =~= views(r0).push(seq!['.']));
    }
    let ghost head = views(r@);
    assert(head =~= (if has_root(s@) {
        seq![seq!['/']]
    } else {
        seq![]
    }) + (if leading_cur_dir(s@) {
        seq![seq!['.']]
    } else {
        seq![]
    }));
    let segs = split_slash_exec(s);
    let ghost sv = views(segs@);
    let mut i: usize = 0;
    assert(named_segments(sv.take(0)) =~= Seq::<Seq<char>>::empty());
    while i < segs.len()
        invariant
            i <= segs.len(),
            sv == views(segs@),
            views(r@) == head + named_segments(sv.take(i as int)),
        decreases segs.len() - i,
    {
        assert(sv.take(i as int + 1).drop_last() == sv.take(i as int));
        let seg = &segs[i];
        assert(seg@ == sv[i as int]);
        let keep = seg.len() > 0 && !(seg.len() == 1 && seg[0] == '.');
        assert(keep == keep_segment(seg@)) by {
            if seg.len() == 1 && seg[0] == '.' {
                assert(seg@ =~= seq!['.']);
            }
            if seg@ == seq!['.'] {
                assert(seg@[0] == '.');
            }
        }
        if keep {
            let ghost before = r@;
            let sc = seg.clone();
            r.push(sc);
            assert(views(r@) =~= views(before).push(seg@));
        }
        i = i + 1;
    }
    assert(sv.take(segs.len() as int) == sv);
    r
}

/// `PathBuf::push` on character vectors.
pub fn push_path_exec(base: &mut Vec<char>, p: &[char])
    ensures
        final(base)@ == push_path(old(base)@, p@),
{
    if p.len() > 0 && p[0] == '/' {
        *base = vstd::slice::slice_to_vec(p);
        return;
    }
    if base.len() > 0 && base[base.len() - 1] != '/' {
        base.push('/');
    }
    let ghost b = base@;
    let mut i: usize = 0;
    while i < p.len()
        invariant
            i <= p.len(),
            base@ == b + p@.take(i as int),
        decreases p.len() - i,
    {
        base.push(p[i]);
        assert(p@.take(i as int + 1) == p@.take(i as int).push(p@[i as int]));
        i = i + 1;
    }
    assert(p@.take(p.len() as int) == p@);
    assert(old(base)@ + seq!['/'] + p@ =~= old(base)@.push('/') + p@);
}

/// `base` with each of `cs[from..]` pushed in turn.
pub fn push_all_exec(base: &[char], cs: &Vec<Vec<char>>, from: usize) -> (r: Vec<char>)
    requires
        from <= cs.len(),
    ensures
        r@ == push_all(base@, views(cs@).skip(from as int)),
{
    let mut r = vstd::slice::slice_to_vec(base);
    let mut i = from;
    let ghost cv = views(cs@);
    assert(cv.skip(from as int).take(0) =~= Seq::<Seq<char>>::empty());
    while i < cs.len()
        invariant
            from <= i <= cs.len(),
            cv == views(cs@),
            r@ == push_all(base@, cv.skip(from as int).take(i - from)),
        decreases cs.len() - i,
    {
        assert(cv.skip(from as int).take(i - from + 1).drop_last() == cv.skip(from as int).take(
            i - from,
        ));
        assert(cv.skip(from as int).take(i - from + 1).last() == cs[i as int]@);
        push_path_exec(&mut r, cs[i].as_slice());
        i = i + 1;
    }
    assert(cv.skip(from as int).take(cs.len() - from) == cv.skip(from as int));
    r
}

/// Whether `p` is a prefix of `s`, component by component.
pub open spec fn comps_prefix(p: Seq<Seq<char>>, s: Seq<Seq<char>>) -> bool {
    p.len() <= s.len() && forall|k: int| 0 <= k < p.len() ==> #[trigger] p[k] == s[k]
}

/// `Path::strip_prefix`: the rest of `path` after the components of `base`, if those
/// are a prefix of its components. The rest is written as the remaining components pushed
/// onto an empty path.
pub open spec fn strip_prefix_spec(path: Seq<char>, base: Seq<char>) -> Option<Seq<char>> {
    let pc = components(path);
    let bc = components(base);
    if comps_prefix(bc, pc) {
        Some(push_all(seq![], pc.skip(bc.len() as int)))
    } else {
        None
    }
}

/// Decides whether `p` is a component-wise prefix of `s`.
fn comps_prefix_exec(p: &Vec<Vec<char>>, s: &Vec<Vec<char>>) -> (r: bool)
    ensures
        r == comps_prefix(views(p@), views(s@)),
{
    if p.len() > s.len() {
        return false;
    }
    let mut k: usize = 0;
    while k < p.len()
        invariant
            k <= p.len() <= s.len(),
            forall|j: int| 0 <= j < k ==> #[trigger] views(p@)[j] == views(s@)[j],
        decreases p.len() - k,
    {
        if !chars_eq(p[k].as_slice(), s[k].as_slice()) {
            assert(views(p@)[k as int] != views(s@)[k as int]);
            return false;
        }
        k = k + 1;
    }
    true
}

/// `Path::strip_prefix` on character vectors (see `strip_prefix_spec`).
pub fn strip_prefix(path: &[char], base: &[char]) -> (r: Option<Vec<char>>)
    ensures
        match r {
            Some(v) => strip_prefix_spec(path@, base@) == Some(v@),
            None => strip_prefix_spec(path@, base@) is None,
        },
{
    let pc = path_components(path);
    let bc = path_components(base);
    if comps_prefix_exec(&bc, &pc) {
        let empty: Vec<char> = Vec::new();
        Some(push_all_exec(empty.as_slice(), &pc, bc.len()))
    } else {
        None
    }
}

/// `Path::file_name`: the last component when it is a name.
pub open spec fn file_name_spec(path: Seq<char>) -> Option<Seq<char>> {
    let cs = components(path);
    if cs.len() == 0 {
        None
    } else if cs.last() == seq!['/'] || cs.last() == seq!['.'] || cs.last() == seq!['.', '.'] {
        None
    } else {
        Some(cs.last())
    }
}

/// `Path::file_name` on a string.
pub fn file_name(path: &str) -> (r: Option<String>)
    ensures
        match r {
            Some(s) => file_name_spec(path@) == Some(s@),
            None => file_name_spec(path@) is None,
        },
{
    let v = chars_of(path);
    let cs = path_components(v.as_slice());
    if cs.len() == 0 {
        return None;
    }
    let last = &cs[cs.len() - 1];
    assert(last@ == components(path@).last());
    let special = chars_eq(last.as_slice(), &['/']) || chars_eq(last.as_slice(), &['.'])
        || chars_eq(last.as_slice(), &['.', '.']);
    assert(seq!['/'] =~= ['/']@);
    assert(seq!['.'] =~= ['.']@);
    assert(seq!['.', '.'] =~= ['.', '.']@);
    if special {
        None
    } else {
        Some(string_of(last.as_slice()))
    }
}

/// Shortening a path for display: at most `depth` trailing components, after `…`.
pub open spec fn short_path_spec(path: Seq<char>, depth: int) -> Seq<char> {
    let cs = components(path);
    if cs.len() > depth {
        push_all(seq!['…'], cs.skip(cs.len() - depth))
    } else {
        path
    }
}

/// Shortens a path to its last `depth` components, prefixed with `…`, when it has more.
pub fn short_path(path_str: &str, depth: usize) -> (r: String)
    ensures
        r@ == short_path_spec(path_str@, depth as int),
{
    let v = chars_of(path_str);
    let cs = path_components(v.as_slice());
    if cs.len() > depth {
        let start = cs.len() - depth;
        let r = push_all_exec(&['…'], &cs, start);
        assert(['…']@ =~= seq!['…']);
        string_of(r.as_slice())
    } else {
        string_of(v.as_slice())
    }
}

/// The candidate that keeps the components from `start` on, after `…`.
pub open spec fn width_candidate(path: Seq<char>, start: int) -> Seq<char> {
    push_all(seq!['…'], components(path).skip(start))
}

/// `start` is the first component index from 1 on whose candidate fits in `max_chars`.
pub open spec fn first_fit(path: Seq<char>, max_chars: int, start: int) -> bool {
    &&& 1 <= start < components(path).len()
    &&& width_candidate(path, start).len() <= max_chars
    &&& forall|k: int| 1 <= k < start ==> #[trigger] width_candidate(path, k).len() > max_chars
}

/// Shortening a path to at most `max_chars` characters: the path itself when it fits;
/// else the candidate with the most trailing components that fits; else `…` followed by
/// the last `max_chars - 1` characters.
pub open spec fn short_path_by_width_spec(path: Seq<char>, max_chars: int) -> Seq<char> {
    if path.len() <= max_chars {
        path
    } else if exists|start: int| first_fit(path, max_chars, start) {
        width_candidate(path, choose|start: int| first_fit(path, max_chars, start))
    } else {
        let keep = if max_chars >= 1 {
            max_chars - 1
        } else {
            0
        };
        seq!['…'] + path.skip(path.len() - keep)
    }
}

/// Shortens a path to fit within `max_chars` characters.
///
/// Keeps as many trailing components as fit, prefixed with `…`; if even the last one does
/// not fit, keeps the last characters after `…`.
pub fn short_path_by_width(path_str: &str, max_chars: usize) -> (r: String)
    ensures
        r@ == short_path_by_width_spec(path_str@, max_chars as int),
{
    let v = chars_of(path_str);
    if v.len() <= max_chars {
        return string_of(v.as_slice());
    }
    let cs = path_components(v.as_slice());
    let ghost path = path_str@;
    let ell: Vec<char> = vec!['…'];
    assert(ell@ =~= seq!['…']);
    let mut start: usize = 1;
    while start < cs.len()
        invariant
            1 <= start,
            ell@ == seq!['…'],
            v.len() > max_chars,
            path == path_str@,
            path == v@,
            views(cs@) == components(path),
            forall|k: int| 1 <= k < start ==> #[trigger] width_candidate(path, k).len() > max_chars,
        decreases cs.len() - start,
    {
        let cand = push_all_exec(ell.as_slice(), &cs, start);
        if cand.len() <= max_chars {
            assert(cand@ == width_candidate(path, start as int));
            assert(first_fit(path, max_chars as int, start as int));
            let ghost chosen = choose|s: int| first_fit(path, max_chars as int, s);
            assert(chosen == start) by {
                if chosen > start {
                    assert(width_candidate(path, start as int).len() > max_chars);
                }
                if chosen < start {
                    assert(width_candidate(path, chosen).len() > max_chars);
                }
            }
            return string_of(cand.as_slice());
        }
        start = start + 1;
    }
    assert(!exists|s: int| first_fit(path, max_chars as int, s));
    let keep: usize = if max_chars >= 1 {
        max_chars - 1
    } else {
        0
    };
    let mut r: Vec<char> = vec!['…'];
    let tail = vstd::slice::slice_subrange(v.as_slice(), v.len() - keep, v.len());
    let mut i: usize = 0;
    while i < tail.len()
        invariant
            i <= tail.len(),
            r@ == seq!['…'] + tail@.take(i as int),
        decreases tail.len() - i,
    {
        r.push(tail[i]);
        assert(tail@.take(i as int + 1) == tail@.take(i as int).push(tail@[i as int]));
        i = i + 1;
    }
    assert(tail@.take(tail.len() as int) == tail@);
    assert(tail@ == path.skip(path.len() - keep));
    string_of(r.as_slice())
}

/// A shortened path fits its budget of at least one character.
pub proof fn lemma_short_path_by_width_fits(path: Seq<char>, max_chars: int)
    requires
        max_chars >= 1,
    ensures
        short_path_by_width_spec(path, max_chars).len() <= max_chars,
{
    if path.len() > max_chars && exists|start: int| first_fit(path, max_chars, start) {
        let start = choose|start: int| first_fit(path, max_chars, start);
        assert(first_fit(path, max_chars, start));
    }
}

} // verus!
