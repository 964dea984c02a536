//! Sanitisation of paths taken from firmware images, so that extracted files
//! cannot land outside the output directory.

use vstd::prelude::*;
use crate::error::UnixtractError;
use crate::text::{chars_of, push_all, spec_split, split_char, split_state, string_from_chars, views};

verus! {

/// The components kept after walking `segs`: empty and `.` components are
/// dropped, `..` removes the last kept component (or nothing when there is
/// none), and every other component is kept.
pub open spec fn kept_components(segs: Seq<Seq<char>>) -> Seq<Seq<char>>
    decreases segs.len(),
{
    if segs.len() == 0 {
        Seq::empty()
    } else {
        let kept = kept_components(segs.drop_last());
        let c = segs.last();
        if c.len() == 0 || c == seq!['.'] {
            kept
        } else if c == seq!['.', '.'] {
            if kept.len() > 0 {
                kept.drop_last()
            } else {
                kept
            }
        } else {
            kept.push(c)
        }
    }
}

/// Components joined with `/`.
pub open spec fn join_slash(segs: Seq<Seq<char>>) -> Seq<char>
    decreases segs.len(),
{
    if segs.len() == 0 {
        Seq::empty()
    } else if segs.len() == 1 {
        segs[0]
    } else {
        join_slash(segs.drop_last()).push('/') + segs.last()
    }
}

/// The sanitised form of a `/`-separated path: relative, with no `.` or
/// `..` components and no empty ones.
pub open spec fn spec_sanitize_path(path: Seq<char>) -> Seq<char> {
    join_slash(kept_components(spec_split(path, '/')))
}

fn is_dot(c: &Vec<char>) -> (r: bool)
    ensures
        r == (c@ == seq!['.']),
{
    if c.len() == 1 && c[0] == '.' {
        assert(c@ =~= seq!['.']);
        true
    } else {
        false
    }
}

fn is_dot_dot(c: &Vec<char>) -> (r: bool)
    ensures
        r == (c@ == seq!['.', '.']),
{
    if c.len() == 2 && c[0] == '.' && c[1] == '.' {
        assert(c@ =~= seq!['.', '.']);
        true
    } else {
        false
    }
}

fn join_components(segs: &Vec<Vec<char>>) -> (r: Vec<char>)
    ensures
        r@ == join_slash(views(segs@)),
{
    let mut out: Vec<char> = Vec::new();
    let mut i: usize = 0;
    while i < segs.len()
        invariant
            i <= segs@.len(),
            out@ == join_slash(views(segs@).take(i as int)),
        decreases segs@.len() - i,
    {
        assert(views(segs@).take(i + 1).drop_last() =~= views(segs@).take(i as int));
        if i > 0 {
            out.push('/');
        }
        push_all(&mut out, segs[i].as_slice());
        i += 1;
        proof {
            if i == 1 {
                assert(views(segs@).take(0) =~= Seq::<Seq<char>>::empty());
            }
        }
    }
    assert(views(segs@).take(i as int) =~= views(segs@));
    out
}

/// Sanitises a path from a firmware image: strips any root, drops `.` and
/// empty components, and resolves `..` without ever climbing above the
/// start. The error case (a `..` surviving) cannot arise.
pub fn sanitize_path(path: &str) -> (r: Result<String, UnixtractError>)
    ensures
        r matches Ok(s) && s@ == spec_sanitize_path(path@),
{
    let chars = chars_of(path);
    let segs = split_char(chars.as_slice(), '/');
    let mut kept: Vec<Vec<char>> = Vec::new();
    let mut i: usize = 0;
    while i < segs.len()
        invariant
            i <= segs@.len(),
            views(segs@) == spec_split(path@, '/'),
            views(kept@) == kept_components(views(segs@).take(i as int)),
        decreases segs@.len() - i,
    {
        let ghost k0 = views(kept@);
        assert(views(segs@).take(i + 1).drop_last() =~= views(segs@).take(i as int));
        assert(views(segs@).take(i + 1).last() == segs@[i as int]@);
        let c = &segs[i];
        if c.len() == 0 || is_dot(c) {
        } else if is_dot_dot(c) {
            if kept.len() > 0 {
                kept.pop();
                assert(views(kept@) =~= k0.drop_last());
            }
        } else {
            let mut copy: Vec<char> = Vec::new();
            push_all(&mut copy, c.as_slice());
            kept.push(copy);
            assert(views(kept@) =~= k0.push(c@));
        }
        i += 1;
    }
    assert(views(segs@).take(i as int) =~= views(segs@));
    let joined = join_components(&kept);
    Ok(string_from_chars(joined.as_slice()))
}

/// `base` joined with a relative `rel` the way `Path::join` does on Unix: a
/// `/` is put between them unless `base` is empty or already ends in `/`.
pub open spec fn spec_join(base: Seq<char>, rel: Seq<char>) -> Seq<char> {
    if base.len() == 0 || base.last() == '/' {
        base + rel
    } else {
        base.push('/') + rel
    }
}

/// The output path for a firmware path: `base_dir` joined with the
/// sanitised path. It always lies inside `base_dir`, so the error case
/// cannot arise.
pub fn safe_output_path(base_dir: &str, firmware_path: &str) -> (r: Result<String, UnixtractError>)
    ensures
        r matches Ok(s) && s@ == spec_join(base_dir@, spec_sanitize_path(firmware_path@)),
        r matches Ok(s) && base_dir@.len() <= s@.len() && s@.take(base_dir@.len() as int)
            == base_dir@,
{
    let sanitized = match sanitize_path(firmware_path) {
        Ok(s) => s,
        Err(e) => return Err(e),
    };
    let base = chars_of(base_dir);
    let rel = chars_of(sanitized.as_str());
    let mut out: Vec<char> = Vec::new();
    push_all(&mut out, base.as_slice());
    if base.len() > 0 && base[base.len() - 1] != '/' {
        out.push('/');
    }
    push_all(&mut out, rel.as_slice());
    assert(out@ =~= spec_join(base_dir@, spec_sanitize_path(firmware_path@)));
    assert(out@.take(base@.len() as int) =~= base@);
    Ok(string_from_chars(out.as_slice()))
}

/// A component that can be kept: not empty, not `.` or `..`, and free of
/// `/`.
pub open spec fn normal_component(c: Seq<char>) -> bool {
    &&& c.len() > 0
    &&& c != seq!['.']
    &&& c != seq!['.', '.']
    &&& !c.contains('/')
}

proof fn lemma_split_pieces_have_no_slash(s: Seq<char>, i: nat)
    requires
        i <= s.len(),
    ensures
        !split_state(s, '/', i).1.contains('/'),
        forall|k: int|
            0 <= k < split_state(s, '/', i).0.len() ==> !(#[trigger] split_state(s, '/', i).0[k]).contains(
                '/',
            ),
    decreases i,
{
    if i > 0 {
        lemma_split_pieces_have_no_slash(s, (i - 1) as nat);
        let (d, c) = split_state(s, '/', (i - 1) as nat);
        if s[i - 1] != '/' {
            let c2 = c.push(s[i - 1]);
            assert(!c2.contains('/')) by {
                if c2.contains('/') {
                    let j = choose|j: int| 0 <= j < c2.len() && #[trigger] c2[j] == '/';
                    if j < c.len() {
                        assert(c[j] == '/');
                        assert(c.contains('/'));
                    }
                }
            }
        }
    }
}

proof fn lemma_kept_normal(segs: Seq<Seq<char>>)
    requires
        forall|k: int| 0 <= k < segs.len() ==> !(#[trigger] segs[k]).contains('/'),
    ensures
        forall|k: int| 0 <= k < kept_components(segs).len() ==> normal_component(
            #[trigger] kept_components(segs)[k],
        ),
    decreases segs.len(),
{
    if segs.len() > 0 {
        let init = segs.drop_last();
        assert forall|k: int| 0 <= k < init.len() implies !(#[trigger] init[k]).contains('/') by {
            assert(init[k] == segs[k]);
        }
        lemma_kept_normal(init);
        let kept = kept_components(init);
        let c = segs.last();
        assert(!c.contains('/')) by {
            assert(segs[segs.len() - 1] == c);
        }
        let r = kept_components(segs);
        if c.len() == 0 || c == seq!['.'] {
            assert(r == kept);
        } else if c == seq!['.', '.'] {
            if kept.len() > 0 {
                assert forall|k: int| 0 <= k < r.len() implies normal_component(#[trigger] r[k]) by {
                    assert(r[k] == kept[k]);
                }
            }
        } else {
            assert(r == kept.push(c));
            assert forall|k: int| 0 <= k < r.len() implies normal_component(#[trigger] r[k]) by {
                if k < kept.len() {
                    assert(r[k] == kept[k]);
                }
            }
        }
    }
}

/// `split_state` reads only the first `i` characters.
proof fn lemma_split_prefix(s: Seq<char>, t: Seq<char>, i: nat)
    requires
        i <= s.len(),
        i <= t.len(),
        s.take(i as int) == t.take(i as int),
    ensures
        split_state(s, '/', i) == split_state(t, '/', i),
    decreases i,
{
    if i > 0 {
        assert(s.take(i - 1) =~= s.take(i as int).take(i - 1));
        assert(t.take(i - 1) =~= t.take(i as int).take(i - 1));
        assert(s[i - 1] == s.take(i as int)[i - 1]);
        assert(t[i - 1] == t.take(i as int)[i - 1]);
        lemma_split_prefix(s, t, (i - 1) as nat);
    }
}

/// Appending characters other than `/` extends the open piece.
proof fn lemma_split_append(x: Seq<char>, b: Seq<char>, k: nat)
    requires
        k <= b.len(),
        !b.contains('/'),
    ensures
        split_state(x + b, '/', (x.len() + k) as nat) == (
            split_state(x, '/', x.len()).0,
            split_state(x, '/', x.len()).1 + b.take(k as int),
        ),
    decreases k,
{
    if k == 0 {
        assert((x + b).take(x.len() as int) =~= x.take(x.len() as int));
        lemma_split_prefix(x + b, x, x.len());
        assert(b.take(0) =~= Seq::<char>::empty());
        assert(split_state(x, '/', x.len()).1 + b.take(0) =~= split_state(x, '/', x.len()).1);
    } else {
        lemma_split_append(x, b, (k - 1) as nat);
        let n = (x.len() + k) as nat;
        assert((x + b)[n - 1] == b[k - 1]);
        assert(b[k - 1] != '/') by {
            if b[k - 1] == '/' {
                assert(b.contains('/'));
            }
        }
        assert(split_state(x, '/', x.len()).1 + b.take(k - 1) + seq![b[k - 1]] =~= split_state(
            x,
            '/',
            x.len(),
        ).1 + b.take(k as int));
    }
}

/// Reading back the components joined with `/` gives the components, when
/// none holds a `/`.
proof fn lemma_split_join(c: Seq<Seq<char>>)
    requires
        c.len() > 0,
        forall|k: int| 0 <= k < c.len() ==> !(#[trigger] c[k]).contains('/'),
    ensures
        spec_split(join_slash(c), '/') == c,
    decreases c.len(),
{
    if c.len() == 1 {
        lemma_split_append(Seq::empty(), c[0], c[0].len());
        assert(Seq::<char>::empty() + c[0] =~= c[0]);
        assert(c[0].take(c[0].len() as int) =~= c[0]);
        assert(Seq::<char>::empty() + c[0] == join_slash(c));
        assert(seq![c[0]] =~= c);
    } else {
        let init = c.drop_last();
        let last = c.last();
        assert(!last.contains('/')) by {
            assert(c[c.len() - 1] == last);
        }
        lemma_split_join(init);
        let x = join_slash(init);
        let xs = x.push('/');
        assert(split_state(xs, '/', xs.len()) == (init, Seq::<char>::empty())) by {
            assert(xs.take(x.len() as int) =~= x.take(x.len() as int));
            lemma_split_prefix(xs, x, x.len());
            let (d, cur) = split_state(x, '/', x.len());
            assert(d.push(cur) == init);
            assert(split_state(xs, '/', xs.len()) == (d.push(cur), Seq::<char>::empty()));
        }
        lemma_split_append(xs, last, last.len());
        assert(last.take(last.len() as int) =~= last);
        assert(join_slash(c) == xs + last);
        assert(init.push(last) =~= c);
    }
}

/// Components that are all normal are kept as they are.
proof fn lemma_kept_identity(c: Seq<Seq<char>>)
    requires
        forall|k: int| 0 <= k < c.len() ==> normal_component(#[trigger] c[k]),
    ensures
        kept_components(c) == c,
    decreases c.len(),
{
    if c.len() > 0 {
        lemma_kept_identity(c.drop_last());
        assert(normal_component(c[c.len() - 1]));
        assert(c.drop_last().push(c.last()) =~= c);
    }
}

/// A sanitised path, read back as a path, consists of normal components
/// only: none is empty, `.` or `..`, so it is relative and cannot climb
/// out of the directory it is joined to. Sanitising it again changes
/// nothing.
pub proof fn lemma_sanitized_path_is_safe(path: Seq<char>)
    ensures
        forall|k: int|
            0 <= k < kept_components(spec_split(path, '/')).len() ==> normal_component(
                #[trigger] kept_components(spec_split(path, '/'))[k],
            ),
        spec_sanitize_path(path).len() > 0 ==> spec_split(spec_sanitize_path(path), '/')
            == kept_components(spec_split(path, '/')),
        spec_sanitize_path(path).len() > 0 ==> spec_sanitize_path(path)[0] != '/',
        spec_sanitize_path(spec_sanitize_path(path)) == spec_sanitize_path(path),
{
    let segs = spec_split(path, '/');
    lemma_split_pieces_have_no_slash(path, path.len());
    let (d, cur) = split_state(path, '/', path.len());
    assert forall|k: int| 0 <= k < segs.len() implies !(#[trigger] segs[k]).contains('/') by {
        if k < d.len() {
            assert(segs[k] == d[k]);
        } else {
            assert(segs[k] == cur);
        }
    }
    lemma_kept_normal(segs);
    let c = kept_components(segs);
    if c.len() > 0 {
        assert forall|k: int| 0 <= k < c.len() implies !(#[trigger] c[k]).contains('/') by {
            assert(normal_component(c[k]));
        }
        lemma_split_join(c);
        lemma_kept_identity(c);
        lemma_join_first(c);
    } else {
        let e = Seq::<char>::empty();
        assert(spec_sanitize_path(path) =~= e);
        assert(split_state(e, '/', 0) == (Seq::<Seq<char>>::empty(), e));
        assert(spec_split(e, '/') =~= seq![e]);
        let one = seq![e];
        assert(one.drop_last() =~= Seq::<Seq<char>>::empty());
        assert(kept_components(Seq::<Seq<char>>::empty()) == Seq::<Seq<char>>::empty());
        assert(one.last() == e);
        assert(kept_components(one) == Seq::<Seq<char>>::empty());
        assert(join_slash(Seq::<Seq<char>>::empty()) == e);
    }
}

/// The joined path starts with the first character of its first component.
proof fn lemma_join_first(c: Seq<Seq<char>>)
    requires
        c.len() > 0,
        forall|k: int| 0 <= k < c.len() ==> normal_component(#[trigger] c[k]),
    ensures
        join_slash(c).len() > 0,
        join_slash(c)[0] == c[0][0],
    decreases c.len(),
{
    assert(normal_component(c[0]));
    if c.len() > 1 {
        lemma_join_first(c.drop_last());
    }
    assert(!c[0].contains('/'));
    assert(c[0][0] != '/') by {
        if c[0][0] == '/' {
            assert(c[0].contains('/'));
        }
    }
}

} // verus!
