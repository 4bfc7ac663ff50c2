//! Unix paths.
//!
//! A path is a string of bytes; what it stands for is the sequence of its parts.
//! Two paths that differ only in repeated slashes or in `.` parts are the same
//! path.

use vstd::prelude::*;
use vstd::slice::slice_subrange;
use vstd::utf8::encode_utf8;

verus! {

/// The byte that separates the parts of a path.
pub const SLASH: u8 = 47;

/// The byte of which `.` and `..` are made.
pub const DOT: u8 = 46;

/// How far the first slash is from the start, or the length without one.
pub open spec fn slash_index(s: Seq<u8>) -> nat
    decreases s.len(),
{
    if s.len() == 0 || s[0] == SLASH {
        0
    } else {
        1 + slash_index(s.drop_first())
    }
}

/// The part that a piece between slashes adds to the path: none if the piece is
/// empty or a single dot.
pub open spec fn kept(piece: Seq<u8>) -> Seq<Seq<u8>> {
    if piece.len() == 0 || piece == seq![DOT] {
        seq![]
    } else {
        seq![piece]
    }
}

/// The parts of a path without a leading slash or dot.
pub open spec fn body_of(s: Seq<u8>) -> Seq<Seq<u8>>
    decreases s.len(),
{
    let n = slash_index(s);
    if n >= s.len() {
        kept(s)
    } else {
        kept(s.take(n as int)) + body_of(s.skip(n as int + 1))
    }
}

/// The part that an absolute path begins with.
pub open spec fn root_part() -> Seq<u8> {
    seq![SLASH]
}

/// The part that a path below the current directory may begin with.
pub open spec fn here_part() -> Seq<u8> {
    seq![DOT]
}

/// What a path begins with before its body: the root, a dot, or nothing.
pub open spec fn lead_of(s: Seq<u8>) -> Seq<Seq<u8>> {
    if s.len() > 0 && s[0] == SLASH {
        seq![root_part()]
    } else if s.len() > 0 && s[0] == DOT && (s.len() == 1 || s[1] == SLASH) {
        seq![here_part()]
    } else {
        seq![]
    }
}

/// The parts of a path.
pub open spec fn parts_of(s: Seq<u8>) -> Seq<Seq<u8>> {
    lead_of(s) + body_of(s)
}

/// Whether the parts are those of an absolute path.
pub open spec fn absolute(parts: Seq<Seq<u8>>) -> bool {
    parts.len() > 0 && parts[0] == root_part()
}

/// The parts of one path continued by another. An absolute path starts anew; a
/// leading dot adds nothing to a path that has begun.
pub open spec fn joined(base: Seq<Seq<u8>>, rest: Seq<Seq<u8>>) -> Seq<Seq<u8>> {
    if absolute(rest) || base.len() == 0 {
        rest
    } else if rest.len() > 0 && rest[0] == here_part() {
        base + rest.skip(1)
    } else {
        base + rest
    }
}

/// The last part of a path, if it is a name.
pub open spec fn name_of(parts: Seq<Seq<u8>>) -> Option<Seq<u8>> {
    if parts.len() == 0 || parts.last() == root_part() || parts.last() == here_part()
        || parts.last() == seq![DOT, DOT] {
        None
    } else {
        Some(parts.last())
    }
}

/// The parts of a path that follow those of another, if it begins with them.
pub open spec fn stripped(parts: Seq<Seq<u8>>, prefix: Seq<Seq<u8>>) -> Option<Seq<Seq<u8>>> {
    if prefix.len() <= parts.len() && parts.take(prefix.len() as int) == prefix {
        Some(parts.skip(prefix.len() as int))
    } else {
        None
    }
}

/// The text of one path continued by another.
pub open spec fn join_text(base: Seq<u8>, rest: Seq<u8>) -> Seq<u8> {
    if rest.len() > 0 && rest[0] == SLASH {
        rest
    } else if base.len() == 0 || base.last() == SLASH {
        base + rest
    } else {
        base + seq![SLASH] + rest
    }
}

/// Where the last piece between slashes begins.
pub open spec fn last_piece(s: Seq<u8>) -> nat
    decreases s.len(),
{
    if s.len() == 0 || s.last() == SLASH {
        s.len()
    } else {
        last_piece(s.drop_last())
    }
}

/// A body without the slashes and single dots at its front.
pub open spec fn front_trimmed(s: Seq<u8>) -> Seq<u8>
    decreases s.len(),
{
    let n = slash_index(s) as int;
    if n >= s.len() {
        if kept(s).len() > 0 {
            s
        } else {
            seq![]
        }
    } else if kept(s.take(n)).len() > 0 {
        s
    } else {
        front_trimmed(s.skip(n + 1))
    }
}

/// A body without the slashes and single dots at its back.
pub open spec fn back_trimmed(s: Seq<u8>) -> Seq<u8>
    decreases s.len(),
{
    let n = last_piece(s) as int;
    if kept(s.skip(n)).len() > 0 {
        s
    } else if n == 0 || n > s.len() {
        seq![]
    } else {
        back_trimmed(s.take(n - 1))
    }
}

/// The text of a body behind its first `k` parts. What lies between the parts that are left
/// stays as it is; what lies around them goes.
pub open spec fn body_text_after(s: Seq<u8>, k: nat) -> Seq<u8>
    decreases k,
{
    let t = front_trimmed(s);
    if k == 0 {
        back_trimmed(t)
    } else {
        body_text_after(t.skip(slash_index(t) as int), (k - 1) as nat)
    }
}

/// The text of a path behind its first `k` parts.
pub open spec fn text_after(s: Seq<u8>, k: nat) -> Seq<u8> {
    let n = lead_of(s).len();
    if k == 0 {
        s.take(n as int) + back_trimmed(s.skip(n as int))
    } else {
        body_text_after(s.skip(n as int), (k - n) as nat)
    }
}

/// The text of a path behind the parts of another, if it begins with them.
pub open spec fn stripped_text(s: Seq<u8>, prefix: Seq<u8>) -> Option<Seq<u8>> {
    if stripped(parts_of(s), parts_of(prefix)) is Some {
        Some(text_after(s, parts_of(prefix).len()))
    } else {
        None
    }
}

/// A path.
#[derive(Debug)]
pub struct UnixPath {
    pub bytes: Vec<u8>,
}

/// The parts that the vectors hold.
pub open spec fn held(v: Seq<Vec<u8>>) -> Seq<Seq<u8>> {
    Seq::new(v.len(), |i: int| v[i]@)
}

proof fn lemma_slash_index(s: Seq<u8>)
    ensures
        slash_index(s) <= s.len(),
        forall|i: int| 0 <= i < slash_index(s) ==> s[i] != SLASH,
        slash_index(s) < s.len() ==> s[slash_index(s) as int] == SLASH,
    decreases s.len(),
{
    if s.len() > 0 && s[0] != SLASH {
        lemma_slash_index(s.drop_first());
        assert forall|i: int| 0 <= i < slash_index(s) implies s[i] != SLASH by {
            if i > 0 {
                assert(s[i] == s.drop_first()[i - 1]);
            }
        }
    }
}

proof fn lemma_slash_index_is(s: Seq<u8>, n: int)
    requires
        0 <= n <= s.len(),
        forall|i: int| 0 <= i < n ==> s[i] != SLASH,
        n < s.len() ==> s[n] == SLASH,
    ensures
        slash_index(s) == n,
{
    lemma_slash_index(s);
    if slash_index(s) < n {
        assert(s[slash_index(s) as int] != SLASH);
    }
}

/// The body of two paths with a slash between them is their bodies in turn.
proof fn lemma_body_concat(a: Seq<u8>, b: Seq<u8>)
    ensures
        body_of(a + seq![SLASH] + b) == body_of(a) + body_of(b),
    decreases a.len(),
{
    let whole = a + seq![SLASH] + b;
    lemma_slash_index(a);
    let n = slash_index(a) as int;
    lemma_slash_index_is(whole, n);
    if n >= a.len() {
        assert(whole.take(n) == a);
        assert(whole.skip(n + 1) == b);
    } else {
        assert(whole.take(n) == a.take(n));
        assert(whole.skip(n + 1) == a.skip(n + 1) + seq![SLASH] + b);
        lemma_body_concat(a.skip(n + 1), b);
        assert(kept(a.take(n)) + (body_of(a.skip(n + 1)) + body_of(b)) == (kept(a.take(n))
            + body_of(a.skip(n + 1))) + body_of(b));
    }
}

proof fn lemma_body_empty()
    ensures
        body_of(Seq::<u8>::empty()) == Seq::<Seq<u8>>::empty(),
{
}

/// No part of a body is the root or a dot, and none is empty.
proof fn lemma_body_parts(s: Seq<u8>)
    ensures
        forall|i: int|
            0 <= i < body_of(s).len() ==> #[trigger] body_of(s)[i] != root_part() && body_of(s)[i]
                != here_part() && body_of(s)[i].len() > 0,
    decreases s.len(),
{
    lemma_slash_index(s);
    let n = slash_index(s) as int;
    let piece = if n >= s.len() {
        s
    } else {
        s.take(n)
    };
    if piece.len() > 0 {
        assert(piece[0] == s[0] && s[0] != SLASH);
        assert(root_part()[0] == SLASH);
    }
    if n < s.len() {
        let rest = s.skip(n + 1);
        lemma_body_parts(rest);
        assert forall|i: int| 0 <= i < body_of(s).len() implies #[trigger] body_of(s)[i]
            != root_part() && body_of(s)[i] != here_part() && body_of(s)[i].len() > 0 by {
            let k = kept(piece).len();
            if i >= k {
                assert(body_of(s)[i] == body_of(rest)[i - k]);
            }
        }
    }
}

/// The lead of a path is what its parts say.
pub proof fn lemma_lead(s: Seq<u8>)
    ensures
        absolute(parts_of(s)) <==> s.len() > 0 && s[0] == SLASH,
        (parts_of(s).len() > 0 && parts_of(s)[0] == here_part()) <==> lead_of(s) == seq![
            here_part(),
        ],
        parts_of(s).len() == 0 <==> s.len() == 0,
{
    lemma_body_parts(s);
    assert(root_part()[0] == SLASH && here_part()[0] == DOT);
    assert(seq![root_part()][0] == root_part());
    assert(seq![here_part()][0] == here_part());
    if lead_of(s).len() == 0 {
        assert(parts_of(s) == body_of(s));
        if s.len() > 0 {
            lemma_slash_index(s);
            let n = slash_index(s) as int;
            assert(n > 0);
            if n < s.len() {
                assert(s.take(n)[0] == s[0]);
                if s.take(n) == seq![DOT] {
                    assert(s.take(n).len() == 1);
                    assert(s[1] == SLASH);
                }
            } else if s == seq![DOT] {
                assert(s.len() == 1);
            }
        }
    }
}

/// Appending a path to another joins their parts.
pub(crate) proof fn lemma_join(base: Seq<u8>, rest: Seq<u8>)
    ensures
        parts_of(join_text(base, rest)) == joined(parts_of(base), parts_of(rest)),
{
    lemma_lead(base);
    lemma_lead(rest);
    if rest.len() > 0 && rest[0] == SLASH {
    } else if base.len() == 0 {
        assert(base + rest == rest);
    } else {
        let text = if base.last() == SLASH {
            base + rest
        } else {
            base + seq![SLASH] + rest
        };
        if base.last() == SLASH {
            let stem = base.drop_last();
            assert(base == stem + seq![SLASH] + Seq::<u8>::empty());
            assert(text == stem + seq![SLASH] + rest);
            lemma_body_concat(stem, Seq::empty());
            lemma_body_concat(stem, rest);
            lemma_body_empty();
        } else {
            lemma_body_concat(base, rest);
        }
        assert(body_of(text) == body_of(base) + body_of(rest));
        assert(lead_of(text) == lead_of(base));
        if lead_of(rest) == seq![here_part()] {
            assert(parts_of(rest).skip(1) == body_of(rest));
        } else {
            assert(parts_of(rest) == body_of(rest));
        }
        assert(lead_of(base) + (body_of(base) + body_of(rest)) == parts_of(base) + body_of(rest));
    }
}

proof fn lemma_last_piece(s: Seq<u8>)
    ensures
        last_piece(s) <= s.len(),
        forall|i: int| last_piece(s) <= i < s.len() ==> s[i] != SLASH,
        last_piece(s) > 0 ==> s[last_piece(s) - 1] == SLASH,
    decreases s.len(),
{
    if s.len() > 0 && s.last() != SLASH {
        lemma_last_piece(s.drop_last());
        assert forall|i: int| last_piece(s) <= i < s.len() implies s[i] != SLASH by {
            if i < s.len() - 1 {
                assert(s[i] == s.drop_last()[i]);
            }
        }
    }
}

/// Trimming the front takes away no part, and what is left begins with one.
proof fn lemma_front_trimmed(s: Seq<u8>)
    ensures
        body_of(front_trimmed(s)) == body_of(s),
        ({
            let t = front_trimmed(s);
            t.len() > 0 ==> kept(t.take(slash_index(t) as int)).len() > 0
        }),
    decreases s.len(),
{
    lemma_slash_index(s);
    let n = slash_index(s) as int;
    if n >= s.len() {
        assert(s.take(n) == s);
        if kept(s).len() == 0 {
            lemma_body_empty();
        }
    } else if kept(s.take(n)).len() == 0 {
        lemma_front_trimmed(s.skip(n + 1));
        assert(kept(s.take(n)) + body_of(s.skip(n + 1)) == body_of(s.skip(n + 1)));
    }
}

/// Trimming the back takes away no part and leaves the front as it is.
proof fn lemma_back_trimmed(s: Seq<u8>)
    ensures
        body_of(back_trimmed(s)) == body_of(s),
        back_trimmed(s).len() <= s.len(),
        back_trimmed(s) == s.take(back_trimmed(s).len() as int),
    decreases s.len(),
{
    lemma_last_piece(s);
    let n = last_piece(s) as int;
    if kept(s.skip(n)).len() > 0 {
        assert(s.take(s.len() as int) == s);
    } else if n == 0 {
        assert(s.skip(0) == s);
        lemma_slash_index_is(s, s.len() as int);
        lemma_body_empty();
        assert(s.take(0) == Seq::<u8>::empty());
    } else {
        let stem = s.take(n - 1);
        let piece = s.skip(n);
        lemma_back_trimmed(stem);
        lemma_slash_index_is(piece, piece.len() as int);
        assert(s == stem + seq![SLASH] + piece);
        lemma_body_concat(stem, piece);
        assert(body_of(piece) == kept(piece));
        assert(body_of(stem) + kept(piece) == body_of(stem));
        let m = back_trimmed(s).len() as int;
        assert(stem.take(m) == s.take(m));
    }
}

/// The first part of a text that begins with one, and what follows it.
proof fn lemma_first_part(t: Seq<u8>)
    requires
        t.len() > 0,
        kept(t.take(slash_index(t) as int)).len() > 0,
    ensures
        body_of(t) == seq![t.take(slash_index(t) as int)] + body_of(
            t.skip(slash_index(t) as int),
        ),
{
    lemma_slash_index(t);
    let n = slash_index(t) as int;
    let rest = t.skip(n);
    lemma_body_empty();
    if n >= t.len() {
        assert(t.take(n) == t);
        assert(rest == Seq::<u8>::empty());
    } else {
        assert(rest[0] == SLASH);
        assert(rest.skip(1) == t.skip(n + 1));
        assert(rest.take(0) == Seq::<u8>::empty());
        assert(kept(rest.take(0)) + body_of(rest.skip(1)) == body_of(rest.skip(1)));
    }
}

/// The text of a body behind its first parts has the parts that are left.
proof fn lemma_body_text_after(s: Seq<u8>, k: nat)
    requires
        k <= body_of(s).len(),
    ensures
        parts_of(body_text_after(s, k)) == body_of(s).skip(k as int),
    decreases k,
{
    let t = front_trimmed(s);
    lemma_front_trimmed(s);
    if k == 0 {
        let u = back_trimmed(t);
        lemma_back_trimmed(t);
        assert(body_of(s).skip(0) == body_of(s));
        lemma_body_empty();
        if u.len() > 0 {
            lemma_slash_index(t);
            let n = slash_index(t) as int;
            assert(t.take(n).len() > 0);
            assert(u[0] == t[0]);
            if u[0] == DOT && u.len() == 1 {
                assert(u == seq![DOT]);
                lemma_slash_index_is(u, 1);
                assert(body_of(u).len() == 0);
                lemma_first_part(t);
            } else if u[0] == DOT && u[1] == SLASH {
                assert(t[1] == SLASH);
                lemma_slash_index_is(t, 1);
                assert(t.take(1) == seq![DOT]);
            }
            assert(lead_of(u) == Seq::<Seq<u8>>::empty());
        }
        assert(parts_of(u) == body_of(u));
    } else {
        lemma_body_empty();
        lemma_first_part(t);
        let rest = t.skip(slash_index(t) as int);
        lemma_body_text_after(rest, (k - 1) as nat);
        assert(body_of(s).skip(k as int) == body_of(rest).skip(k - 1));
    }
}

/// The text of a path behind its first parts has the parts that are left.
pub proof fn rest_has_the_parts_left(s: Seq<u8>, k: nat)
    requires
        k <= parts_of(s).len(),
    ensures
        parts_of(text_after(s, k)) == parts_of(s).skip(k as int),
{
    let n = lead_of(s).len() as int;
    let body = s.skip(n);
    lemma_body_empty();
    assert(body_of(body) == body_of(s)) by {
        if n == 0 {
            assert(body == s);
        } else if s[0] == SLASH {
            assert(s.take(0) == Seq::<u8>::empty());
            assert(kept(s.take(0)) + body_of(s.skip(1)) == body_of(s.skip(1)));
        } else if s.len() == 1 {
            assert(s == seq![DOT]);
            lemma_slash_index_is(s, 1);
            assert(body == Seq::<u8>::empty());
        } else {
            lemma_slash_index_is(s, 1);
            assert(s.take(1) == seq![DOT]);
            assert(kept(s.take(1)) + body_of(s.skip(2)) == body_of(s.skip(2)));
            assert(body.take(0) == Seq::<u8>::empty());
            assert(body.skip(1) == s.skip(2));
            assert(kept(body.take(0)) + body_of(body.skip(1)) == body_of(body.skip(1)));
        }
    }
    if k == 0 {
        let u = back_trimmed(body);
        let text = s.take(n) + u;
        lemma_back_trimmed(body);
        assert(text == s.take(n + u.len()));
        assert(parts_of(s).skip(0) == parts_of(s));
        lemma_lead_body(s, text, u);
    } else {
        lemma_body_text_after(body, (k - n) as nat);
        assert(parts_of(s).skip(k as int) == body_of(s).skip(k - n));
    }
}

/// A path that was cut only behind its lead, where its body did not change, has the same
/// parts.
proof fn lemma_lead_body(s: Seq<u8>, text: Seq<u8>, u: Seq<u8>)
    requires
        ({
            let n = lead_of(s).len() as int;
            &&& u.len() <= s.len() - n
            &&& text == s.take(n + u.len())
            &&& text == s.take(n) + u
            &&& body_of(u) == body_of(s)
        }),
    ensures
        parts_of(text) == parts_of(s),
{
    let n = lead_of(s).len() as int;
    lemma_body_empty();
    if n == 0 {
        assert(text == u);
        if text.len() > 0 {
            if text[0] == DOT && text.len() == 1 {
                assert(text == seq![DOT]);
                lemma_slash_index_is(text, 1);
                assert(body_of(text).len() == 0);
                lemma_lead(s);
                assert(parts_of(s) == body_of(s));
            }
        }
        if s.len() > 0 && text.len() == 0 {
            lemma_lead(s);
            assert(parts_of(s) == body_of(s));
        }
    } else if s[0] == SLASH {
        assert(text.take(0) == Seq::<u8>::empty());
        assert(text.skip(1) == u);
        assert(kept(text.take(0)) + body_of(u) == body_of(u));
    } else if text.len() == 1 {
        assert(text == seq![DOT]);
        lemma_slash_index_is(text, 1);
        assert(u == Seq::<u8>::empty());
    } else {
        assert(text[1] == SLASH);
        lemma_slash_index_is(text, 1);
        assert(text.take(1) == seq![DOT]);
        assert(u[0] == SLASH);
        assert(u.take(0) == Seq::<u8>::empty());
        assert(u.skip(1) == text.skip(2));
        assert(kept(u.take(0)) + body_of(u.skip(1)) == body_of(u.skip(1)));
        assert(kept(text.take(1)) + body_of(text.skip(2)) == body_of(text.skip(2)));
    }
}

/// Where the body without the slashes and single dots at its front begins.
fn trim_front(s: &[u8], from: usize) -> (n: usize)
    requires
        from <= s@.len(),
    ensures
        from <= n <= s@.len(),
        s@.skip(n as int) == front_trimmed(s@.skip(from as int)),
{
    let mut i: usize = from;
    loop
        invariant
            from <= i <= s@.len(),
            front_trimmed(s@.skip(from as int)) == front_trimmed(s@.skip(i as int)),
        decreases s@.len() - i,
    {
        let n: usize = find_slash(s, i);
        let piece = slice_subrange(s, i, n);
        let ghost rest = s@.skip(i as int);
        assert(piece@ == rest.take(n - i));
        if !(piece.len() == 0 || (piece.len() == 1 && piece[0] == DOT)) {
            assert(rest.take(rest.len() as int) == rest);
            return i;
        }
        assert(piece@.len() == 0 || piece@ == seq![DOT]);
        if n == s.len() {
            assert(piece@ == rest);
            return n;
        }
        assert(rest.skip(slash_index(rest) as int + 1) == s@.skip(n + 1));
        i = n + 1;
    }
}

/// Where the body from `from` on without the slashes and single dots at its back ends.
fn trim_back(s: &[u8], from: usize) -> (n: usize)
    requires
        from <= s@.len(),
    ensures
        from <= n <= s@.len(),
        s@.subrange(from as int, n as int) == back_trimmed(s@.skip(from as int)),
{
    let mut end: usize = s.len();
    assert(s@.subrange(from as int, end as int) == s@.skip(from as int));
    loop
        invariant
            from <= end <= s@.len(),
            back_trimmed(s@.skip(from as int)) == back_trimmed(
                s@.subrange(from as int, end as int),
            ),
        decreases end,
    {
        let ghost body = s@.subrange(from as int, end as int);
        let mut n: usize = end;
        assert(s@.subrange(from as int, n as int) == body);
        while n > from && s[n - 1] != SLASH
            invariant
                from <= n <= end <= s@.len(),
                body == s@.subrange(from as int, end as int),
                last_piece(body) == last_piece(s@.subrange(from as int, n as int)),
            decreases n,
        {
            assert(s@.subrange(from as int, n as int).drop_last() == s@.subrange(
                from as int,
                n - 1,
            ));
            n = n - 1;
        }
        assert(last_piece(body) == n - from);
        let piece = slice_subrange(s, n, end);
        assert(piece@ == body.skip(n - from));
        if !(piece.len() == 0 || (piece.len() == 1 && piece[0] == DOT)) {
            return end;
        }
        assert(piece@.len() == 0 || piece@ == seq![DOT]);
        if n == from {
            return n;
        }
        assert(body.take(n - from - 1) == s@.subrange(from as int, n - 1));
        end = n - 1;
    }
}

/// The index of the first slash from `from` on, or the length without one.
fn find_slash(s: &[u8], from: usize) -> (n: usize)
    requires
        from <= s@.len(),
    ensures
        from <= n <= s@.len(),
        n - from == slash_index(s@.skip(from as int)),
{
    let mut i: usize = from;
    while i < s.len() && s[i] != SLASH
        invariant
            from <= i <= s@.len(),
            slash_index(s@.skip(from as int)) == i - from + slash_index(s@.skip(i as int)),
        decreases s.len() - i,
    {
        assert(s@.skip(i as int).drop_first() == s@.skip(i + 1));
        i = i + 1;
    }
    i
}

/// The bytes of a slice.
pub fn bytes_of(s: &[u8]) -> (v: Vec<u8>)
    ensures
        v@ == s@,
{
    let mut v: Vec<u8> = Vec::new();
    push_bytes(&mut v, s);
    v
}

/// Append the bytes of a slice.
pub fn push_bytes(v: &mut Vec<u8>, s: &[u8])
    ensures
        final(v)@ == old(v)@ + s@,
{
    let mut i: usize = 0;
    while i < s.len()
        invariant
            i <= s@.len(),
            v@ == old(v)@ + s@.take(i as int),
        decreases s@.len() - i,
    {
        v.push(s[i]);
        i = i + 1;
    }
}

/// Whether the bytes are the same.
pub fn same_bytes(a: &[u8], b: &[u8]) -> (r: bool)
    ensures
        r == (a@ == b@),
{
    if a.len() != b.len() {
        return false;
    }
    let mut i: usize = 0;
    while i < a.len()
        invariant
            i <= a@.len() == b@.len(),
            a@.take(i as int) == b@.take(i as int),
        decreases a.len() - i,
    {
        if a[i] != b[i] {
            return false;
        }
        i = i + 1;
        assert(a@.take(i as int) == a@.take(i - 1).push(a@[i - 1]));
        assert(b@.take(i as int) == b@.take(i - 1).push(b@[i - 1]));
    }
    assert(a@ == a@.take(i as int));
    assert(b@ == b@.take(i as int));
    true
}

/// Append the parts of a path's body.
fn push_body(v: &mut Vec<Vec<u8>>, s: &[u8])
    ensures
        held(final(v)@) == held(old(v)@) + body_of(s@),
{
    let mut from: usize = 0;
    assert(s@.skip(0) == s@);
    let ghost start = held(v@);
    loop
        invariant_except_break
            from <= s@.len(),
            start == held(old(v)@),
            start + body_of(s@) == held(v@) + body_of(s@.skip(from as int)),
        ensures
            held(v@) == start + body_of(s@),
        decreases s@.len() - from,
    {
        let n: usize = find_slash(s, from);
        let piece = slice_subrange(s, from, n);
        let ghost rest = s@.skip(from as int);
        let ghost before = held(v@);
        assert(piece@ == rest.take(n - from));
        if piece.len() == 0 || (piece.len() == 1 && piece[0] == DOT) {
            assert(piece@.len() == 0 || piece@ == seq![DOT]);
            assert(before + kept(piece@) == before);
        } else {
            v.push(bytes_of(piece));
            assert(held(v@) == before.push(piece@));
            assert(held(v@) == before + kept(piece@));
        }
        if n == s.len() {
            assert(piece@ == rest);
            break;
        }
        from = n + 1;
        assert(rest.skip(slash_index(rest) as int + 1) == s@.skip(from as int));
        assert(before + (kept(piece@) + body_of(s@.skip(from as int))) == (before + kept(piece@))
            + body_of(s@.skip(from as int)));
    }
}

impl UnixPath {
    /// What the path stands for.
    pub open spec fn parts(&self) -> Seq<Seq<u8>> {
        parts_of(self.bytes@)
    }

    /// The path with the given text.
    pub fn new(s: &str) -> (p: UnixPath)
        ensures
            p.bytes@ == encode_utf8(s@),
    {
        UnixPath { bytes: bytes_of(s.as_bytes()) }
    }

    /// A copy of the path.
    pub fn copy(&self) -> (p: UnixPath)
        ensures
            p.bytes@ == self.bytes@,
    {
        UnixPath { bytes: bytes_of(self.bytes.as_slice()) }
    }

    /// The root directory.
    pub fn root() -> (p: UnixPath)
        ensures
            p.bytes@ == seq![SLASH],
            p.parts() == seq![root_part()],
    {
        let p = UnixPath { bytes: vec![SLASH] };
        proof {
            lemma_body_concat(Seq::empty(), Seq::empty());
            lemma_body_empty();
            assert(p.bytes@ == Seq::<u8>::empty() + seq![SLASH] + Seq::<u8>::empty());
            assert(p.parts() == seq![root_part()]);
        }
        p
    }

    /// The parts of the path.
    pub fn components(&self) -> (v: Vec<Vec<u8>>)
        ensures
            held(v@) == self.parts(),
    {
        let s = self.bytes.as_slice();
        let mut v: Vec<Vec<u8>> = Vec::new();
        if s.len() > 0 && s[0] == SLASH {
            let lead: Vec<u8> = vec![SLASH];
            assert(lead@ == root_part());
            v.push(lead);
        } else if s.len() > 0 && s[0] == DOT && (s.len() == 1 || s[1] == SLASH) {
            let lead: Vec<u8> = vec![DOT];
            assert(lead@ == here_part());
            v.push(lead);
        }
        assert(held(v@) == lead_of(s@));
        push_body(&mut v, s);
        v
    }

    /// Whether this is the same path as `other`.
    pub fn same_as(&self, other: &UnixPath) -> (r: bool)
        ensures
            r == (self.parts() == other.parts()),
    {
        let a = self.components();
        let b = other.components();
        assert(held(a@).take(a@.len() as int) == held(a@));
        a.len() == b.len() && starts_with(&a, &b)
    }

    /// The path continued by `rest`.
    pub fn join(&self, rest: &UnixPath) -> (p: UnixPath)
        ensures
            p.bytes@ == join_text(self.bytes@, rest.bytes@),
            p.parts() == joined(self.parts(), rest.parts()),
    {
        proof {
            lemma_join(self.bytes@, rest.bytes@);
        }
        if rest.bytes.len() > 0 && rest.bytes[0] == SLASH {
            return rest.copy();
        }
        let mut bytes = bytes_of(self.bytes.as_slice());
        let n: usize = bytes.len();
        if n > 0 && bytes[n - 1] != SLASH {
            bytes.push(SLASH);
        }
        push_bytes(&mut bytes, rest.bytes.as_slice());
        assert(bytes@ == join_text(self.bytes@, rest.bytes@));
        UnixPath { bytes }
    }

    /// The last part of the path, if it is a name.
    pub fn file_name(&self) -> (r: Option<UnixPath>)
        ensures
            r is Some <==> name_of(self.parts()) is Some,
            r matches Some(p) ==> name_of(self.parts()) == Some(p.bytes@),
            r matches Some(p) ==> p.parts() == seq![p.bytes@],
    {
        let v = self.components();
        let n: usize = v.len();
        if n == 0 {
            return None;
        }
        let last = v[n - 1].as_slice();
        assert(last@ == self.parts().last());
        let root: Vec<u8> = vec![SLASH];
        let here: Vec<u8> = vec![DOT];
        let up: Vec<u8> = vec![DOT, DOT];
        assert(root@ == root_part());
        assert(here@ == here_part());
        assert(up@ == seq![DOT, DOT]);
        if same_bytes(last, root.as_slice()) || same_bytes(last, here.as_slice()) || same_bytes(
            last,
            up.as_slice(),
        ) {
            None
        } else {
            proof {
                lemma_part_is_path(self.bytes@, n - 1);
            }
            Some(UnixPath { bytes: bytes_of(last) })
        }
    }

    /// The rest of the path after `prefix`, if it begins with it. The rest never
    /// begins with a slash, unless nothing was taken away.
    pub fn strip_prefix(&self, prefix: &UnixPath) -> (r: Option<UnixPath>)
        ensures
            r is Some <==> stripped(self.parts(), prefix.parts()) is Some,
            r matches Some(p) ==> stripped_text(self.bytes@, prefix.bytes@) == Some(p.bytes@),
            r matches Some(p) ==> stripped(self.parts(), prefix.parts()) == Some(p.parts()),
    {
        let a = self.components();
        let b = prefix.components();
        if !starts_with(&a, &b) {
            return None;
        }
        let s = self.bytes.as_slice();
        proof {
            rest_has_the_parts_left(s@, b@.len());
        }
        let lead: usize = if s.len() > 0 && (s[0] == SLASH || (s[0] == DOT && (s.len() == 1 || s[1]
            == SLASH))) {
            1
        } else {
            0
        };
        assert(lead == lead_of(s@).len());
        let mut from: usize = lead;
        if b.len() > 0 {
            let mut left: usize = b.len() - lead;
            while left > 0
                invariant
                    from <= s@.len(),
                    body_text_after(s@.skip(from as int), left as nat) == text_after(
                        s@,
                        b@.len(),
                    ),
                decreases left,
            {
                let start: usize = trim_front(s, from);
                from = find_slash(s, start);
                assert(s@.skip(from as int) == s@.skip(start as int).skip(from - start));
                left = left - 1;
            }
            from = trim_front(s, from);
        }
        let end: usize = trim_back(s, from);
        let mut bytes: Vec<u8> = Vec::new();
        if b.len() == 0 {
            push_bytes(&mut bytes, slice_subrange(s, 0, lead));
            assert(s@.subrange(0, lead as int) == s@.take(lead as int));
        }
        push_bytes(&mut bytes, slice_subrange(s, from, end));
        assert(bytes@ == text_after(s@, b@.len()));
        Some(UnixPath { bytes })
    }
}

/// Every part but a leading root or dot, taken as a path of its own, has itself as
/// its only part.
proof fn lemma_part_is_path(s: Seq<u8>, i: int)
    requires
        0 <= i < parts_of(s).len(),
        parts_of(s)[i] != root_part(),
        parts_of(s)[i] != here_part(),
    ensures
        parts_of(parts_of(s)[i]) == seq![parts_of(s)[i]],
{
    lemma_body_pieces(s);
    let k = lead_of(s).len();
    assert(i >= k);
    let part = parts_of(s)[i];
    assert(part == body_of(s)[i - k]);
    lemma_slash_index_is(part, part.len() as int);
    assert(lead_of(part) == Seq::<Seq<u8>>::empty()) by {
        if part.len() == 1 && part[0] == DOT {
            assert(part == here_part());
        }
    }
    assert(body_of(part) == kept(part));
    assert(parts_of(part) == seq![part]);
}

/// Behind the first part stand only parts of the body.
proof fn lemma_part_is_body(s: Seq<u8>, i: int)
    requires
        0 < i < parts_of(s).len(),
    ensures
        parts_of(s)[i] != root_part(),
        parts_of(s)[i] != here_part(),
{
    lemma_body_parts(s);
    assert(parts_of(s)[i] == body_of(s)[i - lead_of(s).len()]);
}

/// Parts of a body hold no slash and are not empty.
proof fn lemma_body_pieces(s: Seq<u8>)
    ensures
        forall|i: int, j: int|
            0 <= i < body_of(s).len() && 0 <= j < body_of(s)[i].len() ==> #[trigger] body_of(
                s,
            )[i][j] != SLASH,
        forall|i: int| 0 <= i < body_of(s).len() ==> (#[trigger] body_of(s)[i]).len() > 0,
    decreases s.len(),
{
    lemma_body_parts(s);
    lemma_slash_index(s);
    let n = slash_index(s) as int;
    let piece = if n >= s.len() {
        s
    } else {
        s.take(n)
    };
    assert forall|j: int| 0 <= j < piece.len() implies piece[j] != SLASH by {
        assert(piece[j] == s[j]);
    }
    if n < s.len() {
        let rest = s.skip(n + 1);
        lemma_body_pieces(rest);
        assert forall|i: int, j: int|
            0 <= i < body_of(s).len() && 0 <= j < body_of(s)[i].len() implies #[trigger] body_of(
            s,
        )[i][j] != SLASH by {
            let k = kept(piece).len();
            if i >= k {
                assert(body_of(s)[i] == body_of(rest)[i - k]);
                assert(body_of(rest)[i - k][j] != SLASH);
            } else {
                assert(body_of(s)[i] == piece);
            }
        }
    }
}

/// Whether the second list begins the first.
fn starts_with(a: &Vec<Vec<u8>>, b: &Vec<Vec<u8>>) -> (r: bool)
    ensures
        r == (b@.len() <= a@.len() && held(a@).take(b@.len() as int) == held(b@)),
{
    if b.len() > a.len() {
        return false;
    }
    let mut i: usize = 0;
    while i < b.len()
        invariant
            i <= b@.len() <= a@.len(),
            held(a@).take(i as int) == held(b@).take(i as int),
        decreases b@.len() - i,
    {
        if !same_bytes(a[i].as_slice(), b[i].as_slice()) {
            assert(held(a@).take(b@.len() as int)[i as int] != held(b@)[i as int]);
            return false;
        }
        i = i + 1;
        assert(held(a@).take(i as int) == held(a@).take(i - 1).push(held(a@)[i - 1]));
        assert(held(b@).take(i as int) == held(b@).take(i - 1).push(held(b@)[i - 1]));
    }
    assert(held(b@).take(i as int) == held(b@));
    true
}

/// Stripping gives back what was joined: a relative path joined to another is what is
/// left of the result without the other.
pub proof fn strip_undoes_join(base: Seq<Seq<u8>>, rest: Seq<Seq<u8>>)
    requires
        base.len() > 0,
        !absolute(rest),
        rest.len() > 0 ==> rest[0] != here_part(),
    ensures
        stripped(joined(base, rest), base) == Some(rest),
{
    assert(joined(base, rest).take(base.len() as int) == base);
    assert(joined(base, rest).skip(base.len() as int) == rest);
}

/// The name of a path, taken as a path of its own, has itself as its only part.
pub proof fn name_is_a_path(s: Seq<u8>)
    requires
        name_of(parts_of(s)) is Some,
    ensures
        parts_of(name_of(parts_of(s))->0) == seq![name_of(parts_of(s))->0],
{
    lemma_part_is_path(s, parts_of(s).len() - 1);
}

/// Behind its first part a path has no root.
pub proof fn root_comes_first(s: Seq<u8>, i: int)
    requires
        0 < i < parts_of(s).len(),
    ensures
        parts_of(s)[i] != root_part(),
{
    lemma_part_is_body(s, i);
}

/// Behind its first part a path has no single dot.
pub proof fn part_is_no_dot(s: Seq<u8>, i: int)
    requires
        0 < i < parts_of(s).len(),
    ensures
        parts_of(s)[i] != here_part(),
{
    lemma_part_is_body(s, i);
}

} // verus!
