//! Lexical paths over `/`-separated strings: splitting into components,
//! normalization, joining, and the final component.
use vstd::prelude::*;
use crate::naming::push_char;
use crate::naming::str_chars;

verus! {

broadcast use vstd::string::group_string_axioms;

/// The `/`-separated pieces of a path text, empty pieces included
/// (`"/a//b"` splits into `""`, `"a"`, `""`, `"b"`).
pub open spec fn split_path(s: Seq<char>) -> Seq<Seq<char>>
    decreases s.len(),
{
    if s.len() == 0 {
        seq![Seq::<char>::empty()]
    } else if s.last() == '/' {
        split_path(s.drop_last()).push(Seq::<char>::empty())
    } else {
        let p = split_path(s.drop_last());
        p.update(p.len() - 1, p.last().push(s.last()))
    }
}

pub open spec fn dot() -> Seq<char> {
    seq!['.']
}

pub open spec fn dot_dot() -> Seq<char> {
    seq!['.', '.']
}

/// One lexical normalization step over the component stack: empty and `.`
/// pieces vanish, `..` removes the previous named component (at the root of
/// an absolute path it vanishes, in a relative path with nothing to remove it
/// is kept), and any other piece is pushed.
pub open spec fn normalize_step(stack: Seq<Seq<char>>, piece: Seq<char>, absolute: bool) -> Seq<Seq<char>> {
    if piece.len() == 0 || piece == dot() {
        stack
    } else if piece == dot_dot() {
        if stack.len() > 0 && stack.last() != dot_dot() {
            stack.drop_last()
        } else if absolute {
            stack
        } else {
            stack.push(piece)
        }
    } else {
        stack.push(piece)
    }
}

/// Fold the normalization step over a list of pieces.
pub open spec fn normalize_pieces(pieces: Seq<Seq<char>>, absolute: bool) -> Seq<Seq<char>>
    decreases pieces.len(),
{
    if pieces.len() == 0 {
        Seq::empty()
    } else {
        normalize_step(normalize_pieces(pieces.drop_last(), absolute), pieces.last(), absolute)
    }
}

/// Components joined with `/`.
pub open spec fn join_pieces(pieces: Seq<Seq<char>>) -> Seq<char>
    decreases pieces.len(),
{
    if pieces.len() == 0 {
        Seq::empty()
    } else if pieces.len() == 1 {
        pieces[0]
    } else {
        join_pieces(pieces.drop_last()) + seq!['/'] + pieces.last()
    }
}

pub open spec fn is_absolute(s: Seq<char>) -> bool {
    s.len() > 0 && s[0] == '/'
}

/// The lexically normalized form of a path text: the normalized components
/// joined with `/`, led by `/` for an absolute path, and `.` for a relative
/// path with no component left.
pub open spec fn normalized_path(s: Seq<char>) -> Seq<char> {
    let stack = normalize_pieces(split_path(s), is_absolute(s));
    if is_absolute(s) {
        seq!['/'] + join_pieces(stack)
    } else if stack.len() == 0 {
        dot()
    } else {
        join_pieces(stack)
    }
}

/// `base` joined with one more component: a `/` between them unless `base`
/// is empty or already ends with `/`.
pub open spec fn path_join(base: Seq<char>, piece: Seq<char>) -> Seq<char> {
    if base.len() == 0 || base.last() == '/' {
        base + piece
    } else {
        base + seq!['/'] + piece
    }
}

/// A piece that names a component: neither empty nor `.`.
pub open spec fn is_named_piece(p: Seq<char>) -> bool {
    p.len() != 0 && p != dot()
}

/// The last piece that names a component, if any.
pub open spec fn last_named_piece(pieces: Seq<Seq<char>>) -> Option<Seq<char>>
    decreases pieces.len(),
{
    if pieces.len() == 0 {
        None
    } else if is_named_piece(pieces.last()) {
        Some(pieces.last())
    } else {
        last_named_piece(pieces.drop_last())
    }
}

/// The final component of a path, when it names one: `None` for a path with
/// no named component or one whose last named component is `..`.
pub open spec fn path_file_name(s: Seq<char>) -> Option<Seq<char>> {
    match last_named_piece(split_path(s)) {
        Some(p) => if p == dot_dot() {
            None
        } else {
            Some(p)
        },
        None => None,
    }
}

/// Whether a text holds no `/`.
pub open spec fn has_no_slash(x: Seq<char>) -> bool {
    forall|i: int| 0 <= i < x.len() ==> x[i] != '/'
}

/// Appending slash-free text extends the last piece.
pub proof fn lemma_split_extend(a: Seq<char>, x: Seq<char>)
    requires
        has_no_slash(x),
    ensures
        split_path(a + x) == split_path(a).update(split_path(a).len() - 1, split_path(a).last() + x),
    decreases x.len(),
{
    lemma_split_nonempty(a);
    if x.len() == 0 {
        assert(a + x =~= a);
        assert(split_path(a).last() + x =~= split_path(a).last());
        assert(split_path(a).update(split_path(a).len() - 1, split_path(a).last()) =~= split_path(a));
    } else {
        let y = x.drop_last();
        lemma_split_extend(a, y);
        assert((a + x).drop_last() =~= a + y);
        assert((a + x).last() == x.last());
        lemma_split_nonempty(a + y);
        let p = split_path(a);
        let q = split_path(a + y);
        assert(x.last() != '/');
        assert(q == p.update(p.len() - 1, p.last() + y));
        assert(q.len() == p.len());
        assert(q.last() == p.last() + y);
        assert(split_path(a + x) == q.update(q.len() - 1, q.last().push(x.last())));
        assert((p.last() + y).push(x.last()) =~= p.last() + x);
        assert(split_path(a + x) =~= p.update(p.len() - 1, p.last() + x));
    }
}

/// A split always has at least one piece.
pub proof fn lemma_split_nonempty(s: Seq<char>)
    ensures
        split_path(s).len() >= 1,
    decreases s.len(),
{
    if s.len() > 0 {
        lemma_split_nonempty(s.drop_last());
    }
}

/// The last piece of a joined path is the joined component.
pub proof fn lemma_join_last_piece(base: Seq<char>, x: Seq<char>)
    requires
        has_no_slash(x),
    ensures
        split_path(path_join(base, x)).last() == x,
        split_path(path_join(base, x)).len() >= 1,
{
    if base.len() == 0 || base.last() == '/' {
        lemma_split_extend(base, x);
        lemma_split_nonempty(base);
        if base.len() > 0 {
            assert(split_path(base).last() == Seq::<char>::empty());
        } else {
            assert(split_path(base).last() == Seq::<char>::empty());
        }
        assert(split_path(base).last() + x =~= x);
    } else {
        let b1 = base + seq!['/'];
        assert(b1.drop_last() =~= base);
        lemma_split_extend(b1, x);
        assert(base + seq!['/'] + x =~= b1 + x);
        assert(split_path(b1).last() + x =~= x);
    }
}

/// The file name of a path joined with a named slash-free component is that
/// component.
pub proof fn lemma_join_file_name(base: Seq<char>, x: Seq<char>)
    requires
        has_no_slash(x),
        is_named_piece(x),
        x != dot_dot(),
    ensures
        path_file_name(path_join(base, x)) == Some(x),
{
    lemma_join_last_piece(base, x);
}

fn text_of(p: &Vec<char>) -> (s: String)
    ensures
        s@ == p@,
{
    let mut s = String::new();
    let mut i: usize = 0;
    while i < p.len()
        invariant
            i <= p.len(),
            s@ == p@.take(i as int),
        decreases p.len() - i,
    {
        push_char(&mut s, p[i]);
        i = i + 1;
        assert(s@ =~= p@.take(i as int));
    }
    assert(p@.take(p.len() as int) =~= p@);
    s
}

/// The final component of a path (see [`path_file_name`]).
pub fn file_name(path: &str) -> (r: Option<String>)
    ensures
        match r {
            Some(n) => path_file_name(path@) == Some(n@),
            None => path_file_name(path@) is None,
        },
{
    let chars = str_chars(path);
    let pieces = split_path_exec(&chars);
    let ghost all = views(pieces@);
    let mut i: usize = pieces.len();
    assert(all.take(i as int) =~= all);
    while i > 0 && !(pieces[i - 1].len() != 0 && !is_dot(&pieces[i - 1]))
        invariant
            i <= pieces.len(),
            all == views(pieces@),
            last_named_piece(all) == last_named_piece(all.take(i as int)),
        decreases i,
    {
        assert(all.take(i as int).drop_last() =~= all.take(i - 1));
        i = i - 1;
    }
    if i == 0 {
        assert(all.take(0) =~= Seq::<Seq<char>>::empty());
        return None;
    }
    assert(all.take(i as int).last() == pieces@[i - 1]@);
    if is_dot_dot(&pieces[i - 1]) {
        None
    } else {
        Some(text_of(&pieces[i - 1]))
    }
}

/// `base` joined with one more component (see [`path_join`]).
pub fn join(base: &str, piece: &str) -> (out: String)
    ensures
        out@ == path_join(base@, piece@),
{
    let b = str_chars(base);
    let mut out = String::from_str(base);
    if b.len() > 0 && b[b.len() - 1] != '/' {
        push_char(&mut out, '/');
    }
    out.append(piece);
    out
}

/// The character sequences held by a list of character vectors.
pub open spec fn views(v: Seq<Vec<char>>) -> Seq<Seq<char>> {
    v.map_values(|p: Vec<char>| p@)
}

/// The pieces of a path text.
pub fn split_path_exec(chars: &Vec<char>) -> (pieces: Vec<Vec<char>>)
    ensures
        views(pieces@) == split_path(chars@),
{
    let mut done: Vec<Vec<char>> = Vec::new();
    let mut current: Vec<char> = Vec::new();
    let mut i: usize = 0;
    while i < chars.len()
        invariant
            i <= chars.len(),
            done@.len() + 1 == split_path(chars@.take(i as int)).len(),
            forall|j: int| 0 <= j < done@.len() ==> #[trigger] done@[j]@ == split_path(chars@.take(i as int))[j],
            current@ == split_path(chars@.take(i as int)).last(),
        decreases chars.len() - i,
    {
        let c = chars[i];
        let ghost prev = chars@.take(i as int);
        assert(chars@.take(i + 1).drop_last() =~= prev);
        if c == '/' {
            done.push(current);
            current = Vec::new();
        } else {
            current.push(c);
        }
        i = i + 1;
        assert(current@ =~= split_path(chars@.take(i as int)).last());
    }
    assert(chars@.take(chars.len() as int) =~= chars@);
    done.push(current);
    assert(views(done@) =~= split_path(chars@));
    done
}

fn is_dot(p: &Vec<char>) -> (r: bool)
    ensures
        r == (p@ == dot()),
{
    let r = p.len() == 1 && p[0] == '.';
    assert(r ==> p@ =~= dot());
    r
}

fn is_dot_dot(p: &Vec<char>) -> (r: bool)
    ensures
        r == (p@ == dot_dot()),
{
    let r = p.len() == 2 && p[0] == '.' && p[1] == '.';
    assert(r ==> p@ =~= dot_dot());
    r
}

/// Apply the lexical normalization steps to a list of pieces.
fn normalize_pieces_exec(pieces: &Vec<Vec<char>>, absolute: bool) -> (stack: Vec<Vec<char>>)
    ensures
        views(stack@) == normalize_pieces(views(pieces@), absolute),
{
    let mut stack: Vec<Vec<char>> = Vec::new();
    let mut i: usize = 0;
    while i < pieces.len()
        invariant
            i <= pieces.len(),
            views(stack@) == normalize_pieces(views(pieces@).take(i as int), absolute),
        decreases pieces.len() - i,
    {
        let ghost before = views(stack@);
        let piece = &pieces[i];
        assert(views(pieces@).take(i + 1).drop_last() =~= views(pieces@).take(i as int));
        assert(views(pieces@).take(i + 1).last() == piece@);
        if piece.len() == 0 || is_dot(piece) {
        } else if is_dot_dot(piece) {
            let n = stack.len();
            if n > 0 && !is_dot_dot(&stack[n - 1]) {
                stack.pop();
                assert(views(stack@) =~= before.drop_last());
            } else if absolute {
            } else {
                stack.push(piece.clone());
                assert(views(stack@) =~= before.push(piece@));
            }
        } else {
            stack.push(piece.clone());
            assert(views(stack@) =~= before.push(piece@));
        }
        i = i + 1;
    }
    assert(views(pieces@).take(pieces.len() as int) =~= views(pieces@));
    stack
}

/// Append the pieces joined with `/` to `out`.
fn push_joined(out: &mut String, pieces: &Vec<Vec<char>>)
    ensures
        final(out)@ == old(out)@ + join_pieces(views(pieces@)),
{
    let ghost start = out@;
    let mut i: usize = 0;
    while i < pieces.len()
        invariant
            i <= pieces.len(),
            out@ == start + join_pieces(views(pieces@).take(i as int)),
        decreases pieces.len() - i,
    {
        let ghost prefix = views(pieces@).take(i as int);
        assert(views(pieces@).take(i + 1).drop_last() =~= prefix);
        if i > 0 {
            push_char(out, '/');
        }
        let piece = &pieces[i];
        let mut j: usize = 0;
        let ghost mid = out@;
        while j < piece.len()
            invariant
                j <= piece.len(),
                out@ == mid + piece@.take(j as int),
            decreases piece.len() - j,
        {
            push_char(out, piece[j]);
            j = j + 1;
            assert(out@ =~= mid + piece@.take(j as int));
        }
        assert(piece@.take(piece.len() as int) =~= piece@);
        i = i + 1;
        assert(out@ =~= start + join_pieces(views(pieces@).take(i as int)));
    }
    assert(views(pieces@).take(pieces.len() as int) =~= views(pieces@));
}

/// Lexically normalize a path: drop empty and `.` components, resolve `..`
/// against the previous named component, and rejoin with `/`.
pub fn normalize_path(path: &str) -> (out: String)
    ensures
        out@ == normalized_path(path@),
{
    let chars = str_chars(path);
    let absolute = chars.len() > 0 && chars[0] == '/';
    let pieces = split_path_exec(&chars);
    let stack = normalize_pieces_exec(&pieces, absolute);
    let mut out = String::new();
    if absolute {
        push_char(&mut out, '/');
        push_joined(&mut out, &stack);
    } else if stack.len() == 0 {
        push_char(&mut out, '.');
    } else {
        push_joined(&mut out, &stack);
    }
    assert(out@ =~= normalized_path(path@));
    out
}

} // verus!
