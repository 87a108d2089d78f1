//! Lexical path handling for module specifiers: template substitution and
//! normalization of `.` and `..` without touching the filesystem.
use vstd::prelude::*;

verus! {

/// `template` with every `?` replaced by `specifier`.
pub open spec fn substituted(template: Seq<char>, specifier: Seq<char>) -> Seq<char>
    decreases template.len(),
{
    if template.len() == 0 {
        Seq::empty()
    } else {
        let rest = substituted(template.drop_last(), specifier);
        if template.last() == '?' {
            rest + specifier
        } else {
            rest.push(template.last())
        }
    }
}

/// Replaces every `?` in `template` by `specifier`.
pub fn substitute(template: &str, specifier: &str) -> (r: String)
    ensures
        r@ == substituted(template@, specifier@),
{
    let n = template.unicode_len();
    let mut out = String::new();
    let mut i: usize = 0;
    while i < n
        invariant
            n == template@.len(),
            i <= n,
            out@ == substituted(template@.subrange(0, i as int), specifier@),
        decreases n - i,
    {
        let c = template.get_char(i);
        proof {
            assert(template@.subrange(0, i + 1).drop_last() =~= template@.subrange(0, i as int));
        }
        if c == '?' {
            out.append(specifier);
        } else {
            out.append(template.substring_char(i, i + 1));
            proof {
                assert(template@.subrange(i as int, i + 1) =~= seq![c]);
            }
        }
        i = i + 1;
        proof {
            assert(out@ =~= substituted(template@.subrange(0, i as int), specifier@));
        }
    }
    proof {
        assert(template@.subrange(0, n as int) =~= template@);
    }
    out
}

/// The segment stack after one more segment: empty segments and `.` leave it
/// as it is, `..` drops the last segment (if any), any other is pushed.
pub open spec fn apply_segment(stack: Seq<Seq<char>>, seg: Seq<char>) -> Seq<Seq<char>> {
    if seg.len() == 0 || seg == seq!['.'] {
        stack
    } else if seg == seq!['.', '.'] {
        if stack.len() > 0 {
            stack.drop_last()
        } else {
            stack
        }
    } else {
        stack.push(seg)
    }
}

/// Left-to-right scan of `p`: the segments completed so far, applied to the
/// stack, and the segment still being read.
pub open spec fn scan(p: Seq<char>) -> (Seq<Seq<char>>, Seq<char>)
    decreases p.len(),
{
    if p.len() == 0 {
        (Seq::empty(), Seq::empty())
    } else {
        let prev = scan(p.drop_last());
        if p.last() == '/' {
            (apply_segment(prev.0, prev.1), Seq::empty())
        } else {
            (prev.0, prev.1.push(p.last()))
        }
    }
}

/// The segments of `p` after resolving `.`, `..` and repeated separators.
pub open spec fn normal_segments(p: Seq<char>) -> Seq<Seq<char>> {
    apply_segment(scan(p).0, scan(p).1)
}

/// `segs` joined with `/` between them.
pub open spec fn joined(segs: Seq<Seq<char>>) -> Seq<char>
    decreases segs.len(),
{
    if segs.len() == 0 {
        Seq::empty()
    } else if segs.len() == 1 {
        segs[0]
    } else {
        joined(segs.drop_last()) + seq!['/'] + segs.last()
    }
}

/// Whether `p` starts at the root.
pub open spec fn is_absolute(p: Seq<char>) -> bool {
    p.len() > 0 && p[0] == '/'
}

/// The lexical normal form of `p`.
pub open spec fn normalized(p: Seq<char>) -> Seq<char> {
    if is_absolute(p) {
        seq!['/'] + joined(normal_segments(p))
    } else {
        joined(normal_segments(p))
    }
}

fn is_one_dot(s: &String) -> (r: bool)
    ensures
        r == (s@ == seq!['.']),
{
    let t = s.as_str();
    if t.unicode_len() == 1 {
        let c = t.get_char(0);
        proof {
            if c == '.' {
                assert(s@ =~= seq!['.']);
            }
        }
        c == '.'
    } else {
        false
    }
}

fn is_two_dots(s: &String) -> (r: bool)
    ensures
        r == (s@ == seq!['.', '.']),
{
    let t = s.as_str();
    if t.unicode_len() == 2 {
        let c0 = t.get_char(0);
        let c1 = t.get_char(1);
        proof {
            if c0 == '.' && c1 == '.' {
                assert(s@ =~= seq!['.', '.']);
            }
        }
        c0 == '.' && c1 == '.'
    } else {
        false
    }
}

/// Applies segment `seg` to `stack`.
fn push_segment(stack: &mut Vec<String>, seg: String)
    ensures
        final(stack)@.map_values(|x: String| x@) == apply_segment(
            old(stack)@.map_values(|x: String| x@),
            seg@,
        ),
{
    let ghost before = old(stack)@.map_values(|x: String| x@);
    if seg.as_str().unicode_len() == 0 || is_one_dot(&seg) {
    } else if is_two_dots(&seg) {
        if stack.len() > 0 {
            stack.pop();
            proof {
                assert(stack@.map_values(|x: String| x@) =~= before.drop_last());
            }
        }
    } else {
        stack.push(seg);
        proof {
            assert(stack@.map_values(|x: String| x@) =~= before.push(seg@));
        }
    }
}

/// Joins `segs` with `/` between them.
fn join_segments(segs: &Vec<String>) -> (r: String)
    ensures
        r@ == joined(segs@.map_values(|x: String| x@)),
{
    let ghost views = segs@.map_values(|x: String| x@);
    let mut out = String::new();
    let mut i: usize = 0;
    while i < segs.len()
        invariant
            i <= segs@.len(),
            views == segs@.map_values(|x: String| x@),
            out@ == joined(views.subrange(0, i as int)),
        decreases segs@.len() - i,
    {
        proof {
            assert(views.subrange(0, i + 1).drop_last() =~= views.subrange(0, i as int));
            assert(views.subrange(0, i + 1).last() == segs@[i as int]@);
            reveal_strlit("/");
            assert("/"@ =~= seq!['/']);
        }
        if i > 0 {
            out.append("/");
        }
        out.append(segs[i].as_str());
        i = i + 1;
        proof {
            assert(out@ =~= joined(views.subrange(0, i as int)));
        }
    }
    proof {
        assert(views.subrange(0, segs@.len() as int) =~= views);
    }
    out
}

/// The lexical normal form of `path`: `.` segments and empty segments are
/// dropped, `..` removes the segment before it, and a leading `/` is kept.
pub fn normalize_path(path: &str) -> (r: String)
    ensures
        r@ == normalized(path@),
{
    let n = path.unicode_len();
    let mut stack: Vec<String> = Vec::new();
    let mut cur = String::new();
    let mut i: usize = 0;
    while i < n
        invariant
            n == path@.len(),
            i <= n,
            stack@.map_values(|x: String| x@) == scan(path@.subrange(0, i as int)).0,
            cur@ == scan(path@.subrange(0, i as int)).1,
        decreases n - i,
    {
        let c = path.get_char(i);
        proof {
            assert(path@.subrange(0, i + 1).drop_last() =~= path@.subrange(0, i as int));
        }
        if c == '/' {
            let seg = cur;
            cur = String::new();
            push_segment(&mut stack, seg);
        } else {
            cur.append(path.substring_char(i, i + 1));
            proof {
                assert(path@.subrange(i as int, i + 1) =~= seq![c]);
                assert(cur@ =~= scan(path@.subrange(0, i + 1)).1);
            }
        }
        i = i + 1;
    }
    proof {
        assert(path@.subrange(0, n as int) =~= path@);
    }
    push_segment(&mut stack, cur);
    let body = join_segments(&stack);
    if n > 0 && path.get_char(0) == '/' {
        let mut out = String::new();
        proof {
            reveal_strlit("/");
        }
        out.append("/");
        out.append(body.as_str());
        out
    } else {
        body
    }
}

} // verus!
