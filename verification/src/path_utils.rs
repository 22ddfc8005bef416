//! POSIX-style path arithmetic on plain strings. Nothing here touches the
//! file system.

use crate::text::{
    chars_of, join, last_index_of, lemma_last_index_of, lemma_split_nonempty, pieces_view,
    push_chars, rfind_char, slice_chars, split_chars, split_on, str_eq, string_of,
};
use vstd::prelude::*;

verus! {

/// `path` without its last dot-suffix, if that dot stands behind the last
/// `/` and is not the first character of the file name.
pub open spec fn strip_extension_spec(path: Seq<char>) -> Seq<char> {
    let dot = last_index_of(path, '.');
    let name_start = last_index_of(path, '/') + 1;
    if dot > name_start {
        path.take(dot)
    } else {
        path
    }
}

/// Removes the extension of the file name, on characters.
pub fn strip_extension_chars(path: &Vec<char>) -> (out: Vec<char>)
    ensures
        out@ == strip_extension_spec(path@),
{
    proof {
        lemma_last_index_of(path@, '.');
        lemma_last_index_of(path@, '/');
        assert(path@.take(path@.len() as int) =~= path@);
    }
    let name_start: usize = match rfind_char(path, '/') {
        Some(i) => i + 1,
        None => 0,
    };
    match rfind_char(path, '.') {
        Some(dot) => {
            if dot > name_start {
                slice_chars(path, 0, dot)
            } else {
                slice_chars(path, 0, path.len())
            }
        },
        None => slice_chars(path, 0, path.len()),
    }
}

/// Removes the extension of the file name.
pub fn strip_extension(path: &str) -> (out: String)
    ensures
        out@ == strip_extension_spec(path@),
{
    let p = chars_of(path);
    let r = strip_extension_chars(&p);
    string_of(&r)
}

/// The directory part of `path`: what stands before the last `/`, or
/// `.` where there is no `/`.
pub open spec fn posix_dirname_spec(path: Seq<char>) -> Seq<char> {
    let slash = last_index_of(path, '/');
    if slash >= 0 {
        path.take(slash)
    } else {
        seq!['.']
    }
}

/// The directory part of a path, on characters.
pub fn posix_dirname_chars(path: &Vec<char>) -> (out: Vec<char>)
    ensures
        out@ == posix_dirname_spec(path@),
{
    proof {
        lemma_last_index_of(path@, '/');
    }
    match rfind_char(path, '/') {
        Some(i) => slice_chars(path, 0, i),
        None => {
            let out: Vec<char> = vec!['.'];
            proof {
                assert(out@ =~= seq!['.']);
            }
            out
        },
    }
}

/// The directory part of a path.
pub fn posix_dirname(path: &str) -> (out: String)
    ensures
        out@ == posix_dirname_spec(path@),
{
    let p = chars_of(path);
    let r = posix_dirname_chars(&p);
    string_of(&r)
}

/// What is left of a list of path segments once empty and `.` segments
/// are dropped and every `..` has removed the segment before it.
pub open spec fn resolve_segments(segs: Seq<Seq<char>>) -> Seq<Seq<char>>
    decreases segs.len(),
{
    if segs.len() == 0 {
        Seq::empty()
    } else {
        let acc = resolve_segments(segs.drop_last());
        let s = segs.last();
        if s.len() == 0 || s == seq!['.'] {
            acc
        } else if s == seq!['.', '.'] {
            if acc.len() > 0 {
                acc.drop_last()
            } else {
                acc
            }
        } else {
            acc.push(s)
        }
    }
}

/// The normal form of a POSIX path.
pub open spec fn posix_normalize_spec(path: Seq<char>) -> Seq<char> {
    join(resolve_segments(split_on(path, '/')), seq!['/'])
}

/// Whether a segment is `.`.
fn is_dot(seg: &Vec<char>) -> (r: bool)
    ensures
        r == (seg@ == seq!['.']),
{
    let r = seg.len() == 1 && seg[0] == '.';
    proof {
        if r {
            assert(seg@ =~= seq!['.']);
        } else if seg@ == seq!['.'] {
            assert(seq!['.'].len() == 1);
            assert(seq!['.'][0] == '.');
        }
    }
    r
}

/// Whether a segment is `..`.
fn is_dot_dot(seg: &Vec<char>) -> (r: bool)
    ensures
        r == (seg@ == seq!['.', '.']),
{
    let r = seg.len() == 2 && seg[0] == '.' && seg[1] == '.';
    proof {
        if r {
            assert(seg@ =~= seq!['.', '.']);
        } else if seg@ == seq!['.', '.'] {
            assert(seq!['.', '.'].len() == 2);
            assert(seq!['.', '.'][0] == '.');
            assert(seq!['.', '.'][1] == '.');
        }
    }
    r
}

/// Joins character pieces with `/`.
fn join_with_slash(parts: &Vec<Vec<char>>) -> (out: Vec<char>)
    ensures
        out@ == join(pieces_view(parts@), seq!['/']),
{
    let mut out: Vec<char> = Vec::new();
    let mut i: usize = 0;
    while i < parts.len()
        invariant
            i <= parts.len(),
            out@ == join(pieces_view(parts@).take(i as int), seq!['/']),
        decreases parts.len() - i,
    {
        proof {
            let next = pieces_view(parts@).take(i + 1);
            assert(next.drop_last() =~= pieces_view(parts@).take(i as int));
            assert(next.last() == parts@[i as int]@);
        }
        let ghost before = out@;
        if i > 0 {
            out.push('/');
            proof {
                assert(out@ =~= before + seq!['/']);
            }
        }
        push_chars(&mut out, &parts[i]);
        proof {
            if i == 0 {
                assert(out@ =~= parts@[0]@);
            }
        }
        i += 1;
    }
    proof {
        assert(pieces_view(parts@).take(parts@.len() as int) =~= pieces_view(parts@));
    }
    out
}

/// Normalizes a POSIX path, on characters.
pub fn posix_normalize_chars(path: &Vec<char>) -> (out: Vec<char>)
    ensures
        out@ == posix_normalize_spec(path@),
{
    let segs = split_chars(path, '/');
    let mut parts: Vec<Vec<char>> = Vec::new();
    let mut i: usize = 0;
    proof {
        assert(pieces_view(parts@) =~= Seq::<Seq<char>>::empty());
    }
    while i < segs.len()
        invariant
            i <= segs.len(),
            pieces_view(parts@) == resolve_segments(pieces_view(segs@).take(i as int)),
        decreases segs.len() - i,
    {
        proof {
            let next = pieces_view(segs@).take(i + 1);
            assert(next.drop_last() =~= pieces_view(segs@).take(i as int));
            assert(next.last() == segs@[i as int]@);
        }
        let ghost before = pieces_view(parts@);
        let seg = &segs[i];
        if is_dot_dot(seg) {
            if parts.len() > 0 {
                parts.pop();
                proof {
                    assert(pieces_view(parts@) =~= before.drop_last());
                }
            }
        } else if seg.len() > 0 && !is_dot(seg) {
            parts.push(slice_chars(seg, 0, seg.len()));
            proof {
                assert(seg@.subrange(0, seg@.len() as int) =~= seg@);
                assert(pieces_view(parts@) =~= before.push(seg@));
            }
        }
        i += 1;
    }
    proof {
        assert(pieces_view(segs@).take(segs@.len() as int) =~= pieces_view(segs@));
    }
    join_with_slash(&parts)
}

/// Normalizes a POSIX path: splits on `/`, discards empty and `.`
/// segments, lets `..` remove the segment before it, and rejoins with `/`.
pub fn posix_normalize(path: &str) -> (out: String)
    ensures
        out@ == posix_normalize_spec(path@),
{
    let p = chars_of(path);
    let r = posix_normalize_chars(&p);
    string_of(&r)
}

/// `path` with every backslash turned into a slash.
pub open spec fn slashes(path: Seq<char>) -> Seq<char> {
    Seq::new(
        path.len(),
        |i: int|
            if path[i] == '\\' {
                '/'
            } else {
                path[i]
            },
    )
}

/// A path with slashes for backslashes holds no backslash.
pub proof fn lemma_slashes_posix(path: Seq<char>)
    ensures
        !slashes(path).contains('\\'),
{
    let s = slashes(path);
    assert forall|i: int| 0 <= i < s.len() implies s[i] != '\\' by {}
}

/// Whether a path is in normal form: it is written with forward slashes,
/// and normalization leaves it as it is.
pub open spec fn is_normal(path: Seq<char>) -> bool {
    !path.contains('\\') && posix_normalize_spec(path) == path
}

/// The pieces of a text without `c` are the pieces before it with the
/// last one carrying the text.
pub proof fn lemma_split_suffix(a: Seq<char>, b: Seq<char>, c: char)
    requires
        !b.contains(c),
    ensures
        split_on(a + b, c) == split_on(a, c).update(
            split_on(a, c).len() - 1,
            split_on(a, c).last() + b,
        ),
    decreases b.len(),
{
    let pieces = split_on(a, c);
    lemma_split_nonempty(a, c);
    if b.len() == 0 {
        assert(a + b =~= a);
        assert(pieces.last() + b =~= pieces.last());
        assert(pieces.update(pieces.len() - 1, pieces.last()) =~= pieces);
    } else {
        let init = b.drop_last();
        assert(b[b.len() - 1] == b.last());
        assert(b.contains(b.last()));
        if init.contains(c) {
            let k = choose|k: int| 0 <= k < init.len() && init[k] == c;
            assert(b[k] == c);
        }
        lemma_split_suffix(a, init, c);
        assert((a + b).drop_last() =~= a + init);
        assert((a + b).last() == b.last());
        let rest = split_on(a + init, c);
        assert(rest.last().push(b.last()) =~= pieces.last() + b);
        assert(rest.update(rest.len() - 1, rest.last().push(b.last())) =~= pieces.update(
            pieces.len() - 1,
            pieces.last() + b,
        ));
    }
}

/// Splitting what was joined gives the parts back, where no part holds
/// the separator.
pub proof fn lemma_split_join(parts: Seq<Seq<char>>, c: char)
    requires
        parts.len() >= 1,
        forall|k: int| 0 <= k < parts.len() ==> !(#[trigger] parts[k]).contains(c),
    ensures
        split_on(join(parts, seq![c]), c) == parts,
    decreases parts.len(),
{
    let empty = Seq::<char>::empty();
    if parts.len() == 1 {
        lemma_split_suffix(empty, parts[0], c);
        assert(empty + parts[0] =~= parts[0]);
        assert(split_on(empty, c) =~= seq![empty]);
        assert(seq![empty].update(0, empty + parts[0]) =~= parts);
    } else {
        let init = parts.drop_last();
        assert forall|k: int| 0 <= k < init.len() implies !(#[trigger] init[k]).contains(c) by {
            assert(init[k] == parts[k]);
        }
        lemma_split_join(init, c);
        let head = join(init, seq![c]);
        assert((head + seq![c]).drop_last() =~= head);
        assert((head + seq![c]).last() == c);
        assert(split_on(head + seq![c], c) == init.push(empty));
        assert(parts[parts.len() - 1] == parts.last());
        lemma_split_suffix(head + seq![c], parts.last(), c);
        assert(init.push(empty).update(init.len() as int, empty + parts.last()) =~= parts);
    }
}

/// No piece of a split holds the separator, nor a character that the
/// text does not hold.
pub proof fn lemma_split_pieces(s: Seq<char>, c: char, d: char)
    requires
        d == c || !s.contains(d),
    ensures
        forall|k: int| 0 <= k < split_on(s, c).len() ==> !(#[trigger] split_on(s, c)[k]).contains(d),
    decreases s.len(),
{
    let pieces = split_on(s, c);
    if s.len() == 0 {
        assert forall|k: int| 0 <= k < pieces.len() implies !(#[trigger] pieces[k]).contains(d) by {
            assert(pieces[k] =~= Seq::<char>::empty());
        }
    } else {
        let init = s.drop_last();
        if init.contains(d) && d != c {
            let k = choose|k: int| 0 <= k < init.len() && init[k] == d;
            assert(s[k] == d);
        }
        lemma_split_pieces(init, c, d);
        lemma_split_nonempty(init, c);
        let rest = split_on(init, c);
        assert forall|k: int| 0 <= k < pieces.len() implies !(#[trigger] pieces[k]).contains(d) by {
            if s.last() == c {
                if k < rest.len() {
                    assert(pieces[k] == rest[k]);
                }
            } else if k < rest.len() - 1 {
                assert(pieces[k] == rest[k]);
            } else {
                let grown = rest.last().push(s.last());
                assert(pieces[k] == grown);
                assert(s[s.len() - 1] == s.last());
                if grown.contains(d) {
                    let x = choose|x: int| 0 <= x < grown.len() && grown[x] == d;
                    if x < rest.last().len() {
                        assert(rest.last()[x] == d);
                        assert(rest[rest.len() - 1].contains(d));
                    } else {
                        assert(s.contains(d));
                    }
                }
            }
        }
    }
}

/// Whether a segment stands in a normal path: it is not empty, neither
/// `.` nor `..`, and holds neither a slash nor a backslash.
pub open spec fn is_plain_segment(seg: Seq<char>) -> bool {
    seg.len() > 0 && seg != seq!['.'] && seg != seq!['.', '.'] && !seg.contains('/')
        && !seg.contains('\\')
}

/// What is left of segments without slashes and backslashes are plain
/// segments.
pub proof fn lemma_resolved_plain(segs: Seq<Seq<char>>)
    requires
        forall|k: int|
            0 <= k < segs.len() ==> !(#[trigger] segs[k]).contains('/') && !segs[k].contains('\\'),
    ensures
        forall|k: int|
            0 <= k < resolve_segments(segs).len() ==> is_plain_segment(
                #[trigger] resolve_segments(segs)[k],
            ),
    decreases segs.len(),
{
    if segs.len() > 0 {
        let init = segs.drop_last();
        assert forall|k: int| 0 <= k < init.len() implies !(#[trigger] init[k]).contains('/')
            && !init[k].contains('\\') by {
            assert(init[k] == segs[k]);
        }
        lemma_resolved_plain(init);
        let acc = resolve_segments(init);
        let out = resolve_segments(segs);
        assert(segs[segs.len() - 1] == segs.last());
        assert forall|k: int| 0 <= k < out.len() implies is_plain_segment(#[trigger] out[k]) by {
            if k < acc.len() {
                assert(out[k] == acc[k]);
            }
        }
    }
}

/// Plain segments are left as they are.
pub proof fn lemma_resolve_plain(segs: Seq<Seq<char>>)
    requires
        forall|k: int| 0 <= k < segs.len() ==> is_plain_segment(#[trigger] segs[k]),
    ensures
        resolve_segments(segs) == segs,
    decreases segs.len(),
{
    if segs.len() > 0 {
        let init = segs.drop_last();
        assert forall|k: int| 0 <= k < init.len() implies is_plain_segment(#[trigger] init[k]) by {
            assert(init[k] == segs[k]);
        }
        lemma_resolve_plain(init);
        assert(segs[segs.len() - 1] == segs.last());
        assert(init.push(segs.last()) =~= segs);
    }
}

/// A join of parts without a backslash holds none.
pub proof fn lemma_join_without(parts: Seq<Seq<char>>)
    requires
        forall|k: int| 0 <= k < parts.len() ==> !(#[trigger] parts[k]).contains('\\'),
    ensures
        !join(parts, seq!['/']).contains('\\'),
    decreases parts.len(),
{
    let out = join(parts, seq!['/']);
    if parts.len() == 1 {
        assert(out == parts[0]);
    } else if parts.len() > 1 {
        let init = parts.drop_last();
        assert forall|k: int| 0 <= k < init.len() implies !(#[trigger] init[k]).contains('\\') by {
            assert(init[k] == parts[k]);
        }
        lemma_join_without(init);
        let head = join(init, seq!['/']);
        assert(parts[parts.len() - 1] == parts.last());
        if out.contains('\\') {
            let x = choose|x: int| 0 <= x < out.len() && out[x] == '\\';
            if x < head.len() {
                assert(head[x] == '\\');
            } else if x > head.len() {
                assert(parts.last()[x - head.len() - 1] == '\\');
            }
        }
    }
}

/// The normal form of a path without backslashes is in normal form.
pub proof fn lemma_normalize_normal(path: Seq<char>)
    requires
        !path.contains('\\'),
    ensures
        is_normal(posix_normalize_spec(path)),
{
    let pieces = split_on(path, '/');
    lemma_split_pieces(path, '/', '/');
    lemma_split_pieces(path, '/', '\\');
    lemma_resolved_plain(pieces);
    let kept = resolve_segments(pieces);
    let out = join(kept, seq!['/']);
    lemma_join_without(kept);
    if kept.len() == 0 {
        let empty = Seq::<char>::empty();
        assert(out =~= empty);
        assert(split_on(empty, '/') =~= seq![empty]);
        let one = seq![empty];
        assert(one.drop_last() =~= Seq::<Seq<char>>::empty());
        assert(one.last() == empty);
        assert(resolve_segments(one.drop_last()) =~= Seq::<Seq<char>>::empty());
        assert(resolve_segments(one) =~= Seq::<Seq<char>>::empty());
    } else {
        lemma_split_join(kept, '/');
        lemma_resolve_plain(kept);
    }
}

/// The path under which a file is indexed: its path with slashes for
/// backslashes, in normal form.
pub open spec fn indexed_path(rel_path: Seq<char>) -> Seq<char> {
    posix_normalize_spec(slashes(rel_path))
}

/// The path under which a file is indexed is in normal form.
pub proof fn lemma_indexed_normal(rel_path: Seq<char>)
    ensures
        is_normal(indexed_path(rel_path)),
{
    lemma_slashes_posix(rel_path);
    lemma_normalize_normal(slashes(rel_path));
}

/// Turns every backslash into a slash, on characters.
pub fn to_slashes(path: &Vec<char>) -> (out: Vec<char>)
    ensures
        out@ == slashes(path@),
{
    let mut out: Vec<char> = Vec::new();
    let mut i: usize = 0;
    while i < path.len()
        invariant
            i <= path.len(),
            out@ == slashes(path@).take(i as int),
        decreases path.len() - i,
    {
        let c = path[i];
        out.push(if c == '\\' {
            '/'
        } else {
            c
        });
        proof {
            assert(out@ =~= slashes(path@).take(i + 1));
        }
        i += 1;
    }
    proof {
        assert(slashes(path@).take(path@.len() as int) =~= slashes(path@));
    }
    out
}

/// Brings a path of the host system into normalized POSIX form:
/// backslashes become slashes, then `posix_normalize` applies.
pub fn normalize_path(path: &str) -> (out: String)
    ensures
        out@ == posix_normalize_spec(slashes(path@)),
{
    let p = chars_of(path);
    let q = to_slashes(&p);
    let r = posix_normalize_chars(&q);
    string_of(&r)
}

// ---------------------------------------------------------------------------
// Components
// ---------------------------------------------------------------------------

/// The segments of `segs` that count as path components: those that are
/// neither empty nor `.`.
pub open spec fn components(segs: Seq<Seq<char>>) -> Seq<Seq<char>>
    decreases segs.len(),
{
    if segs.len() == 0 {
        Seq::empty()
    } else if segs.last().len() == 0 || segs.last() == seq!['.'] {
        components(segs.drop_last())
    } else {
        components(segs.drop_last()).push(segs.last())
    }
}

/// The components of a path.
pub open spec fn path_segments(path: Seq<char>) -> Seq<Seq<char>> {
    components(split_on(path, '/'))
}

/// Whether a path starts at the root of the file system.
pub open spec fn is_absolute(path: Seq<char>) -> bool {
    path.len() > 0 && path[0] == '/'
}

/// The components of `path` behind those of `root`, where `path` lies
/// under `root`.
pub open spec fn relative_to(path: Seq<char>, root: Seq<char>) -> Option<Seq<Seq<char>>> {
    let ps = path_segments(path);
    let rs = path_segments(root);
    if is_absolute(path) == is_absolute(root) && rs.len() <= ps.len() && ps.take(rs.len() as int)
        == rs {
        Some(ps.skip(rs.len() as int))
    } else {
        None
    }
}

/// The components of a path.
pub fn segments_of(path: &str) -> (out: Vec<String>)
    ensures
        out.deep_view() == path_segments(path@),
{
    let p = chars_of(path);
    let segs = split_chars(&p, '/');
    let mut out: Vec<String> = Vec::new();
    let mut i: usize = 0;
    proof {
        assert(out.deep_view() =~= Seq::<Seq<char>>::empty());
        assert(pieces_view(segs@).take(0) =~= Seq::<Seq<char>>::empty());
    }
    while i < segs.len()
        invariant
            i <= segs.len(),
            out.deep_view() == components(pieces_view(segs@).take(i as int)),
        decreases segs.len() - i,
    {
        proof {
            let next = pieces_view(segs@).take(i + 1);
            assert(next.drop_last() =~= pieces_view(segs@).take(i as int));
            assert(next.last() == segs@[i as int]@);
        }
        let ghost before = out.deep_view();
        let seg = &segs[i];
        if seg.len() > 0 && !is_dot(seg) {
            out.push(string_of(seg));
            proof {
                assert(out.deep_view() =~= before.push(seg@));
            }
        }
        i += 1;
    }
    proof {
        assert(pieces_view(segs@).take(segs@.len() as int) =~= pieces_view(segs@));
    }
    out
}

/// Whether a path starts at the root of the file system.
pub fn absolute(path: &str) -> (r: bool)
    ensures
        r == is_absolute(path@),
{
    let p = chars_of(path);
    p.len() > 0 && p[0] == '/'
}

/// The components of `path` behind those of `root`; `None` where `path`
/// does not lie under `root`.
pub fn relative_segments(path: &str, root: &str) -> (r: Option<Vec<String>>)
    ensures
        match r {
            Some(rel) => relative_to(path@, root@) == Some(rel.deep_view()),
            None => relative_to(path@, root@).is_none(),
        },
{
    if absolute(path) != absolute(root) {
        return None;
    }
    let ps = segments_of(path);
    let rs = segments_of(root);
    if rs.len() > ps.len() {
        return None;
    }
    let mut i: usize = 0;
    while i < rs.len()
        invariant
            i <= rs.len() <= ps.len(),
            ps.deep_view() == path_segments(path@),
            rs.deep_view() == path_segments(root@),
            forall|j: int| 0 <= j < i ==> ps.deep_view()[j] == rs.deep_view()[j],
        decreases rs.len() - i,
    {
        if !str_eq(ps[i].as_str(), rs[i].as_str()) {
            proof {
                assert(ps.deep_view().take(rs@.len() as int)[i as int] != rs.deep_view()[
                    i as int
                ]);
            }
            return None;
        }
        i += 1;
    }
    proof {
        assert(ps.deep_view().take(rs@.len() as int) =~= rs.deep_view());
    }
    let mut rel: Vec<String> = Vec::new();
    let mut k: usize = rs.len();
    proof {
        assert(rel.deep_view() =~= ps.deep_view().subrange(rs@.len() as int, k as int));
    }
    while k < ps.len()
        invariant
            rs.len() <= k <= ps.len(),
            rel.deep_view() == ps.deep_view().subrange(rs@.len() as int, k as int),
        decreases ps.len() - k,
    {
        let ghost before = rel.deep_view();
        rel.push(ps[k].clone());
        proof {
            assert(rel.deep_view() =~= before.push(ps@[k as int]@));
            assert(rel.deep_view() =~= ps.deep_view().subrange(rs@.len() as int, k + 1));
        }
        k += 1;
    }
    proof {
        assert(ps.deep_view().subrange(rs@.len() as int, ps@.len() as int) =~= ps.deep_view().skip(
            rs@.len() as int,
        ));
    }
    Some(rel)
}

} // verus!
