use vstd::prelude::*;

verus! {

/// What a list of byte strings holds, string by string.
pub open spec fn views(rows: Seq<Vec<u8>>) -> Seq<Seq<u8>> {
    Seq::new(rows.len(), |i: int| rows[i]@)
}

/// The position of the first `sep` in `s`, or the length of `s` where it holds none.
pub open spec fn first_sep(s: Seq<u8>, sep: u8) -> int
    decreases s.len(),
{
    if s.len() == 0 || s[0] == sep {
        0
    } else {
        1 + first_sep(s.drop_first(), sep)
    }
}

/// Whether `sep` occurs nowhere in `s`.
pub open spec fn free_of(s: Seq<u8>, sep: u8) -> bool {
    forall|i: int| 0 <= i < s.len() ==> s[i] != sep
}

/// The pieces of `s` between occurrences of `sep`. There is always at least one
/// piece, and a separator at either end gives an empty piece there.
pub open spec fn split(s: Seq<u8>, sep: u8) -> Seq<Seq<u8>>
    decreases s.len(),
{
    let k = first_sep(s, sep);
    if 0 <= k < s.len() {
        seq![s.subrange(0, k)] + split(s.subrange(k + 1, s.len() as int), sep)
    } else {
        seq![s]
    }
}

/// The pieces written one after another with `sep` between neighbours.
pub open spec fn join(pieces: Seq<Seq<u8>>, sep: u8) -> Seq<u8>
    decreases pieces.len(),
{
    if pieces.len() == 0 {
        Seq::<u8>::empty()
    } else if pieces.len() == 1 {
        pieces[0]
    } else {
        join(pieces.drop_last(), sep) + seq![sep] + pieces.last()
    }
}

/// The lines of a text: its pieces between line feeds, without the empty piece
/// that follows a final line feed.
pub open spec fn lines_of(text: Seq<u8>) -> Seq<Seq<u8>> {
    let pieces = split(text, 10u8);
    if pieces.len() > 0 && pieces.last().len() == 0 {
        pieces.drop_last()
    } else {
        pieces
    }
}

/// The text whose lines are `lines`, each one closed by a line feed.
pub open spec fn text_of(lines: Seq<Seq<u8>>) -> Seq<u8> {
    join(lines.push(Seq::<u8>::empty()), 10u8)
}

/// `first_sep` is the one position before which no separator stands and at
/// which one stands, or the text ends.
pub proof fn lemma_first_sep(s: Seq<u8>, sep: u8, k: int)
    requires
        0 <= k <= s.len(),
        forall|i: int| 0 <= i < k ==> s[i] != sep,
        k < s.len() ==> s[k] == sep,
    ensures
        first_sep(s, sep) == k,
    decreases s.len(),
{
    if k > 0 {
        let t = s.drop_first();
        assert forall|i: int| 0 <= i < k - 1 implies t[i] != sep by {
            assert(t[i] == s[i + 1]);
        }
        lemma_first_sep(t, sep, k - 1);
    }
}

/// A piece without separator, followed by a separator, is split off whole.
pub proof fn lemma_split_cons(piece: Seq<u8>, rest: Seq<u8>, sep: u8)
    requires
        free_of(piece, sep),
    ensures
        split(piece + seq![sep] + rest, sep) == seq![piece] + split(rest, sep),
{
    let s = piece + seq![sep] + rest;
    let k = piece.len() as int;
    assert forall|i: int| 0 <= i < k implies s[i] != sep by {
        assert(s[i] == piece[i]);
    }
    assert(s[k] == sep);
    lemma_first_sep(s, sep, k);
    assert(s.subrange(0, k) =~= piece);
    assert(s.subrange(k + 1, s.len() as int) =~= rest);
}

/// A text without separator is its own single piece.
pub proof fn lemma_split_single(piece: Seq<u8>, sep: u8)
    requires
        free_of(piece, sep),
    ensures
        split(piece, sep) == seq![piece],
{
    lemma_first_sep(piece, sep, piece.len() as int);
}

/// Joining a first piece to the rest puts it, and a separator, in front.
pub proof fn lemma_join_cons(first: Seq<u8>, rest: Seq<Seq<u8>>, sep: u8)
    requires
        rest.len() > 0,
    ensures
        join(seq![first] + rest, sep) == first + seq![sep] + join(rest, sep),
    decreases rest.len(),
{
    let all = seq![first] + rest;
    assert(all.last() == rest.last());
    if rest.len() == 1 {
        assert(all.drop_last() =~= seq![first]);
        assert(join(all.drop_last(), sep) == first);
        assert(join(rest, sep) == rest[0]);
    } else {
        assert(all.drop_last() =~= seq![first] + rest.drop_last());
        lemma_join_cons(first, rest.drop_last(), sep);
        assert(join(all, sep) =~= first + seq![sep] + join(rest, sep));
    }
}

/// Splitting undoes joining: pieces that hold no separator come back as they
/// were, in number and in content.
pub proof fn lemma_split_join(pieces: Seq<Seq<u8>>, sep: u8)
    requires
        pieces.len() > 0,
        forall|i: int| 0 <= i < pieces.len() ==> free_of(#[trigger] pieces[i], sep),
    ensures
        split(join(pieces, sep), sep) == pieces,
    decreases pieces.len(),
{
    if pieces.len() == 1 {
        lemma_split_single(pieces[0], sep);
        assert(seq![pieces[0]] =~= pieces);
    } else {
        let first = pieces[0];
        let rest = pieces.drop_first();
        assert(pieces =~= seq![first] + rest);
        assert forall|i: int| 0 <= i < rest.len() implies free_of(#[trigger] rest[i], sep) by {
            assert(rest[i] == pieces[i + 1]);
        }
        lemma_join_cons(first, rest, sep);
        lemma_split_join(rest, sep);
        lemma_split_cons(first, join(rest, sep), sep);
    }
}

/// A byte that is neither the separator nor in any piece is not in the joined text.
pub proof fn lemma_join_free_of(pieces: Seq<Seq<u8>>, sep: u8, other: u8)
    requires
        sep != other,
        forall|i: int| 0 <= i < pieces.len() ==> free_of(#[trigger] pieces[i], other),
    ensures
        free_of(join(pieces, sep), other),
    decreases pieces.len(),
{
    if pieces.len() >= 2 {
        let front = pieces.drop_last();
        assert forall|i: int| 0 <= i < front.len() implies free_of(#[trigger] front[i], other) by {
            assert(front[i] == pieces[i]);
        }
        lemma_join_free_of(front, sep, other);
        let head = join(front, sep);
        let last = pieces.last();
        assert(free_of(last, other));
        let all = head + seq![sep] + last;
        assert forall|i: int| 0 <= i < all.len() implies all[i] != other by {
            if i < head.len() {
                assert(all[i] == head[i]);
            } else if i > head.len() {
                assert(all[i] == last[i - head.len() - 1]);
            }
        }
    } else if pieces.len() == 1 {
        assert(free_of(pieces[0], other));
    }
}

/// Reading the lines of a written text gives back the lines that were written,
/// whenever none of them holds a line feed.
pub proof fn lemma_lines_of_text(lines: Seq<Seq<u8>>)
    requires
        forall|i: int| 0 <= i < lines.len() ==> free_of(#[trigger] lines[i], 10u8),
    ensures
        lines_of(text_of(lines)) == lines,
{
    let closed = lines.push(Seq::<u8>::empty());
    assert forall|i: int| 0 <= i < closed.len() implies free_of(#[trigger] closed[i], 10u8) by {
        if i < lines.len() {
            assert(closed[i] == lines[i]);
        }
    }
    lemma_split_join(closed, 10u8);
    assert(closed.drop_last() =~= lines);
}

/// Whether two byte strings hold the same bytes.
pub fn bytes_eq(a: &[u8], b: &[u8]) -> (same: bool)
    ensures
        same == (a@ == b@),
{
    if a.len() != b.len() {
        return false;
    }
    let mut i: usize = 0;
    while i < a.len()
        invariant
            a@.len() == b@.len(),
            i <= a@.len(),
            forall|j: int| 0 <= j < i ==> a@[j] == b@[j],
        decreases a@.len() - i,
    {
        if a[i] != b[i] {
            return false;
        }
        i += 1;
    }
    assert(a@ =~= b@);
    true
}

/// Cuts `text` at every `sep`.
pub fn split_bytes(text: &[u8], sep: u8) -> (pieces: Vec<Vec<u8>>)
    ensures
        views(pieces@) == split(text@, sep),
{
    let mut pieces: Vec<Vec<u8>> = Vec::new();
    let mut piece: Vec<u8> = Vec::new();
    let mut start: usize = 0;
    let mut i: usize = 0;
    let n: usize = text.len();
    proof {
        assert(views(pieces@) =~= Seq::<Seq<u8>>::empty());
        assert(text@.subrange(0, n as int) =~= text@);
    }
    while i < n
        invariant
            n == text@.len(),
            start <= i <= n,
            piece@ == text@.subrange(start as int, i as int),
            forall|j: int| start <= j < i ==> text@[j] != sep,
            split(text@, sep) == views(pieces@) + split(
                text@.subrange(start as int, n as int),
                sep,
            ),
        decreases n - i,
    {
        if text[i] == sep {
            proof {
                let rest = text@.subrange(start as int, n as int);
                let k = i - start;
                assert forall|j: int| 0 <= j < k implies rest[j] != sep by {
                    assert(rest[j] == text@[start + j]);
                }
                lemma_first_sep(rest, sep, k);
                assert(rest.subrange(0, k) =~= piece@);
                assert(rest.subrange(k + 1, rest.len() as int) =~= text@.subrange(
                    i + 1,
                    n as int,
                ));
            }
            let ghost before = views(pieces@);
            pieces.push(piece);
            proof {
                assert(views(pieces@) =~= before + seq![text@.subrange(
                    start as int,
                    i as int,
                )]);
            }
            piece = Vec::new();
            start = i + 1;
            i += 1;
            proof {
                assert(piece@ =~= text@.subrange(start as int, i as int));
            }
        } else {
            piece.push(text[i]);
            i += 1;
            proof {
                assert(piece@ =~= text@.subrange(start as int, i as int));
            }
        }
    }
    proof {
        let rest = text@.subrange(start as int, n as int);
        assert forall|j: int| 0 <= j < rest.len() implies rest[j] != sep by {
            assert(rest[j] == text@[start + j]);
        }
        lemma_first_sep(rest, sep, rest.len() as int);
        assert(piece@ =~= rest);
    }
    let ghost before = views(pieces@);
    pieces.push(piece);
    proof {
        assert(views(pieces@) =~= before + seq![text@.subrange(start as int, n as int)]);
    }
    pieces
}

/// The lines of `text`.
pub fn read_lines(text: &[u8]) -> (lines: Vec<Vec<u8>>)
    ensures
        views(lines@) == lines_of(text@),
{
    let mut pieces = split_bytes(text, 10u8);
    let count: usize = pieces.len();
    if count > 0 && pieces[count - 1].len() == 0 {
        let ghost before = views(pieces@);
        pieces.pop();
        proof {
            assert(before.last() == before[count - 1]);
            assert(views(pieces@) =~= before.drop_last());
        }
    } else {
        proof {
            if count > 0 {
                assert(views(pieces@).last() == pieces@[count - 1]@);
            }
        }
    }
    pieces
}

/// Appends `piece` to `out`.
pub(crate) fn append_bytes(out: &mut Vec<u8>, piece: &[u8])
    ensures
        final(out)@ == old(out)@ + piece@,
{
    let mut i: usize = 0;
    while i < piece.len()
        invariant
            i <= piece@.len(),
            out@ == old(out)@ + piece@.subrange(0, i as int),
        decreases piece@.len() - i,
    {
        out.push(piece[i]);
        i += 1;
        proof {
            assert(out@ =~= old(out)@ + piece@.subrange(0, i as int));
        }
    }
    proof {
        assert(piece@.subrange(0, piece@.len() as int) =~= piece@);
    }
}

/// Writes the pieces one after another with `sep` between neighbours.
pub fn join_bytes(pieces: &Vec<Vec<u8>>, sep: u8) -> (text: Vec<u8>)
    ensures
        text@ == join(views(pieces@), sep),
{
    let mut text: Vec<u8> = Vec::new();
    let mut i: usize = 0;
    while i < pieces.len()
        invariant
            i <= pieces@.len(),
            text@ == join(views(pieces@).take(i as int), sep),
        decreases pieces@.len() - i,
    {
        let ghost done = views(pieces@).take(i as int);
        let ghost next = views(pieces@).take(i + 1);
        proof {
            assert(next.drop_last() =~= done);
            assert(next.last() == pieces@[i as int]@);
        }
        if i > 0 {
            text.push(sep);
        }
        append_bytes(&mut text, pieces[i].as_slice());
        i += 1;
        proof {
            assert(text@ =~= join(next, sep));
        }
    }
    proof {
        assert(views(pieces@).take(pieces@.len() as int) =~= views(pieces@));
    }
    text
}

} // verus!
