use vstd::prelude::*;
use crate::text::{chars_of, splice_chars, sub_chars, remove_char_at, string_from_chars};

verus! {

/// The error of `BufferContents`' operations: an index out of bounds.
pub type BufferContentsError = ();

pub type BufferContentsResult<T> = Result<T, BufferContentsError>;

/// The chunk length past which a chunk is split when text is inserted into it.
pub const MAX_LENGTH_CHARS: usize = 1024;

/// The length of the chunks made when text is split.
pub const PREFERRED_LENGTH_CHARS: usize = 512;

/// The text of a sequence of chunks, one after the other.
pub open spec fn flat(chunks: Seq<Seq<char>>) -> Seq<char>
    decreases chunks.len(),
{
    if chunks.len() == 0 {
        Seq::empty()
    } else {
        flat(chunks.drop_last()) + chunks.last()
    }
}

pub proof fn lemma_flat_append(a: Seq<Seq<char>>, b: Seq<Seq<char>>)
    ensures
        flat(a + b) == flat(a) + flat(b),
    decreases b.len(),
{
    if b.len() == 0 {
        assert(a + b =~= a);
        assert(flat(b) =~= Seq::<char>::empty());
        assert(flat(a) + flat(b) =~= flat(a));
    } else {
        assert((a + b).drop_last() =~= a + b.drop_last());
        assert((a + b).last() == b.last());
        lemma_flat_append(a, b.drop_last());
        assert(flat(a + b) == flat(a + b.drop_last()) + b.last());
        assert(flat(a) + flat(b) =~= flat(a) + flat(b.drop_last()) + b.last());
    }
}

pub proof fn lemma_flat_one(x: Seq<char>)
    ensures
        flat(seq![x]) == x,
{
    assert(seq![x].drop_last() =~= Seq::<Seq<char>>::empty());
    assert(flat(seq![x]) =~= flat(Seq::<Seq<char>>::empty()) + x);
}

/// The text splits at chunk `i`: the chunks before it, chunk `i`, the chunks after it.
pub proof fn lemma_flat_split(s: Seq<Seq<char>>, i: int)
    requires
        0 <= i < s.len(),
    ensures
        flat(s) == flat(s.take(i)) + s[i] + flat(s.skip(i + 1)),
        flat(s.take(i + 1)) == flat(s.take(i)) + s[i],
{
    assert(s =~= s.take(i) + (seq![s[i]] + s.skip(i + 1)));
    lemma_flat_append(s.take(i), seq![s[i]] + s.skip(i + 1));
    lemma_flat_append(seq![s[i]], s.skip(i + 1));
    lemma_flat_one(s[i]);
    assert(s.take(i + 1) =~= s.take(i) + seq![s[i]]);
    lemma_flat_append(s.take(i), seq![s[i]]);
}

/// `flat` of a sequence whose chunks are all short and non-empty.
pub open spec fn chunks_ok(chunks: Seq<Seq<char>>, max: nat) -> bool {
    forall|i: int| 0 <= i < chunks.len() ==> 0 < #[trigger] chunks[i].len() <= max
}

/// The text, kept as a sequence of chunks of characters.
#[derive(Clone, Debug)]
pub struct BufferContents {
    array: Vec<Vec<char>>,
    max_length_chars: usize,
    preferred_length_chars: usize,
}

impl View for BufferContents {
    type V = Seq<char>;

    closed spec fn view(&self) -> Seq<char> {
        flat(self.chunk_views())
    }
}

impl BufferContents {
    /// The chunks, each as a sequence of characters.
    pub closed spec fn chunk_views(&self) -> Seq<Seq<char>> {
        self.array@.map_values(|c: Vec<char>| c@)
    }

    pub closed spec fn max_chunk(&self) -> nat {
        self.max_length_chars as nat
    }

    pub closed spec fn preferred_chunk(&self) -> nat {
        self.preferred_length_chars as nat
    }

    /// Every chunk holds between one and the maximum number of characters,
    /// and the whole text can be counted in a `usize`.
    pub closed spec fn wf(&self) -> bool {
        &&& 0 < self.preferred_length_chars <= self.max_length_chars
        &&& chunks_ok(self.chunk_views(), self.max_length_chars as nat)
        &&& flat(self.chunk_views()).len() <= usize::MAX
    }

    pub proof fn lemma_len_bound(&self)
        requires
            self.wf(),
        ensures
            self@.len() <= usize::MAX,
    {
    }

    /// An empty text, with the usual chunk lengths.
    pub fn new() -> (b: Self)
        ensures
            b.wf(),
            b@ == Seq::<char>::empty(),
            b.max_chunk() == MAX_LENGTH_CHARS,
            b.preferred_chunk() == PREFERRED_LENGTH_CHARS,
    {
        Self::with_chunk_lengths(MAX_LENGTH_CHARS, PREFERRED_LENGTH_CHARS)
    }

    /// An empty text whose chunks hold at most `max` characters and are
    /// split into pieces of `preferred` characters.
    pub fn with_chunk_lengths(max: usize, preferred: usize) -> (b: Self)
        requires
            0 < preferred <= max,
        ensures
            b.wf(),
            b@ == Seq::<char>::empty(),
            b.max_chunk() == max,
            b.preferred_chunk() == preferred,
    {
        let b = BufferContents { array: Vec::new(), max_length_chars: max, preferred_length_chars: preferred };
        assert(b.chunk_views() =~= Seq::<Seq<char>>::empty());
        b
    }

    /// The number of chunks.
    pub fn chunk_count(&self) -> (n: usize)
        ensures
            n == self.chunk_views().len(),
    {
        self.array.len()
    }

    /// The number of characters in chunk `i`.
    pub fn chunk_len(&self, i: usize) -> (n: usize)
        requires
            i < self.chunk_views().len(),
        ensures
            n == self.chunk_views()[i as int].len(),
    {
        self.array[i].len()
    }

    /// The number of characters.
    pub fn len(&self) -> (l: usize)
        requires
            self.wf(),
        ensures
            l == self@.len(),
    {
        let mut l: usize = 0;
        let mut i: usize = 0;
        let ghost cv = self.chunk_views();
        while i < self.array.len()
            invariant
                self.wf(),
                cv == self.chunk_views(),
                i <= self.array.len(),
                l == flat(cv.take(i as int)).len(),
            decreases self.array.len() - i,
        {
            proof {
                lemma_flat_split(cv, i as int);
                lemma_flat_split(cv, cv.len() - 1);
                lemma_flat_append(cv.take(i as int + 1), cv.skip(i as int + 1));
                assert(cv =~= cv.take(i as int + 1) + cv.skip(i as int + 1));
            }
            l = l + self.array[i].len();
            i = i + 1;
        }
        assert(cv.take(i as int) =~= cv);
        l
    }

    /// The character at position `loc`, or an error past the end.
    pub fn get(&self, loc: usize) -> (r: BufferContentsResult<char>)
        requires
            self.wf(),
        ensures
            loc < self@.len() ==> r == Ok::<char, ()>(self@[loc as int]),
            loc >= self@.len() ==> r is Err,
    {
        let mut loc_left = loc;
        let mut i: usize = 0;
        let ghost cv = self.chunk_views();
        while i < self.array.len()
            invariant
                self.wf(),
                cv == self.chunk_views(),
                i <= self.array.len(),
                loc == flat(cv.take(i as int)).len() + loc_left,
            decreases self.array.len() - i,
        {
            proof {
                lemma_flat_split(cv, i as int);
            }
            if loc_left < self.array[i].len() {
                return Ok(self.array[i][loc_left]);
            } else {
                loc_left = loc_left - self.array[i].len();
            }
            i = i + 1;
        }
        assert(cv.take(i as int) =~= cv);
        Err(())
    }
}

/// The chunks of `a`, each as a sequence of characters.
pub open spec fn views(a: Seq<Vec<char>>) -> Seq<Seq<char>> {
    a.map_values(|c: Vec<char>| c@)
}

impl BufferContents {
    proof fn lemma_views(&self)
        ensures
            self.chunk_views() == views(self.array@),
    {
    }

    /// Replaces chunk `i` by chunks that hold its first `off` characters,
    /// then `s`, then the rest of it: in place if the result fits in a
    /// chunk, else cut into chunks of the preferred length.
    fn insert_into_chunk(&mut self, i: usize, off: usize, s: &Vec<char>) -> (pieces: Ghost<Seq<Seq<char>>>)
        requires
            old(self).wf(),
            i < old(self).chunk_views().len(),
            off <= old(self).chunk_views()[i as int].len(),
        ensures
            final(self).max_length_chars == old(self).max_length_chars,
            final(self).preferred_length_chars == old(self).preferred_length_chars,
            final(self).chunk_views() == old(self).chunk_views().take(i as int) + pieces@ + old(self).chunk_views().skip(i + 1),
            flat(pieces@) == old(self).chunk_views()[i as int].take(off as int) + s@ + old(self).chunk_views()[i as int].skip(off as int),
            chunks_ok(pieces@, old(self).max_length_chars as nat),
    {
        let ghost cv = self.chunk_views();
        let ghost pre = cv.take(i as int);
        let ghost post = cv.skip(i as int + 1);
        let ghost chunk = cv[i as int];
        let ghost full = chunk.take(off as int) + s@ + chunk.skip(off as int);
        let str_len = s.len();
        let clen = self.array[i].len();
        if str_len <= self.max_length_chars - clen {
            let newc = splice_chars(&self.array[i], off, s);
            self.array.set(i, newc);
            proof {
                lemma_flat_one(full);
                assert(self.chunk_views() =~= pre + seq![full] + post);
            }
            let g: Ghost<Seq<Seq<char>>> = Ghost(Seq::<Seq<char>>::empty().push(full));
            g
        } else {
            let old_chunk = self.array.remove(i);
            let s2 = sub_chars(s, 0, str_len);
            assert(s2@ =~= s@);
            let mut it = MiddleChain::new(old_chunk, s2, off);
            let mut j = i;
            let pref = self.preferred_length_chars;
            let ghost mut pieces: Seq<Seq<char>> = Seq::empty();
            assert(self.chunk_views() =~= pre + pieces + post);
            loop
                invariant
                    it.wf(),
                    0 < pref <= self.max_length_chars,
                    pref == self.preferred_length_chars,
                    self.max_length_chars == old(self).max_length_chars,
                    self.preferred_length_chars == old(self).preferred_length_chars,
                    j == i + pieces.len(),
                    i == pre.len(),
                    self.chunk_views() == pre + pieces + post,
                    flat(pieces) + it.remaining() == full,
                    chunks_ok(pieces, pref as nat),
                ensures
                    self.chunk_views() == pre + pieces + post,
                    flat(pieces) == full,
                    chunks_ok(pieces, pref as nat),
                    self.max_length_chars == old(self).max_length_chars,
                    self.preferred_length_chars == old(self).preferred_length_chars,
                decreases it.remaining().len(),
            {
                let ghost rem = it.remaining();
                let piece = it.take_(pref);
                let plen = piece.len();
                let ghost pv = piece@;
                if plen == 0 {
                    assert(flat(pieces) =~= full);
                    break;
                }
                proof {
                    lemma_flat_append(pieces, seq![pv]);
                    lemma_flat_one(pv);
                    assert(pieces.push(pv) =~= pieces + seq![pv]);
                    assert(rem =~= pv + it.remaining());
                }
                assert(self.array@.len() == self.chunk_views().len());
                let ghost before = self.array@;
                let ghost before_views = self.chunk_views();
                self.array.insert(j, piece);
                assert(self.chunk_views() =~= pre + pieces.push(pv) + post) by {
                    assert forall|k: int| 0 <= k < self.chunk_views().len() implies #[trigger] self.chunk_views()[k]
                        == (pre + pieces.push(pv) + post)[k] by {
                        if k < j {
                            assert(self.array@[k] == before[k]);
                            assert(before_views[k] == before[k]@);
                            assert(before_views[k] == (pre + pieces + post)[k]);
                        } else if k == j {
                            assert(self.chunk_views()[k] == self.array@[k]@);
                        } else {
                            assert(self.array@[k] == before[k - 1]);
                            assert(before_views[k - 1] == before[k - 1]@);
                            assert(before_views[k - 1] == (pre + pieces + post)[k - 1]);
                        }
                    }
                }
                proof { pieces = pieces.push(pv); }
                let alen = self.array.len();
                assert(j < alen);
                j = j + 1;
                assert(chunks_ok(pieces, pref as nat)) by {
                    assert forall|k: int| 0 <= k < pieces.len() implies 0 < #[trigger] pieces[k].len() <= pref by {
                        if k < pieces.len() - 1 {
                            assert(pieces[k] == pieces.drop_last()[k]);
                        }
                    }
                }
                if plen < pref {
                    assert(it.remaining().len() == 0);
                    assert(flat(pieces) =~= full);
                    break;
                }
            }
            let g: Ghost<Seq<Seq<char>>> = Ghost(pieces);
            g
        }
    }

    /// Appends `s` to an empty text, cut into chunks of the preferred length.
    fn append_to_empty(&mut self, s: &Vec<char>)
        requires
            old(self).wf(),
            old(self).chunk_views().len() == 0,
            s@.len() <= usize::MAX,
        ensures
            final(self).max_length_chars == old(self).max_length_chars,
            final(self).preferred_length_chars == old(self).preferred_length_chars,
            final(self).wf(),
            final(self)@ == s@,
    {
        let str_len = s.len();
        let pref = self.preferred_length_chars;
        let mut k: usize = 0;
        let ghost mut pieces: Seq<Seq<char>> = Seq::empty();
        assert(self.chunk_views() =~= pieces);
        while k < str_len
            invariant
                0 < pref <= self.max_length_chars,
                pref == self.preferred_length_chars,
                self.max_length_chars == old(self).max_length_chars,
                self.preferred_length_chars == old(self).preferred_length_chars,
                k <= str_len,
                str_len == s@.len(),
                self.chunk_views() == pieces,
                flat(pieces) == s@.take(k as int),
                chunks_ok(pieces, pref as nat),
            decreases str_len - k,
        {
            let end = if str_len - k < pref { str_len } else { k + pref };
            let piece = sub_chars(s, k, end);
            proof {
                lemma_flat_append(pieces, seq![piece@]);
                lemma_flat_one(piece@);
                assert(pieces.push(piece@) =~= pieces + seq![piece@]);
            }
            let ghost pv = piece@;
            self.array.push(piece);
            assert(self.chunk_views() =~= pieces.push(pv));
            proof { pieces = pieces.push(pv); }
            assert(flat(pieces) =~= s@.take(end as int));
            assert(chunks_ok(pieces, pref as nat)) by {
                assert forall|m: int| 0 <= m < pieces.len() implies 0 < #[trigger] pieces[m].len() <= pref by {
                    if m < pieces.len() - 1 {
                        assert(pieces[m] == pieces.drop_last()[m]);
                    }
                }
            }
            k = end;
        }
        assert(s@.take(k as int) =~= s@);
    }

    /// Puts the characters of `s` at position `loc`.
    pub fn insert_chars(&mut self, loc: usize, s: &Vec<char>) -> (r: BufferContentsResult<()>)
        requires
            old(self).wf(),
            old(self)@.len() + s@.len() <= usize::MAX,
        ensures
            final(self).wf(),
            final(self).max_chunk() == old(self).max_chunk(),
            final(self).preferred_chunk() == old(self).preferred_chunk(),
            loc <= old(self)@.len() ==> r is Ok && final(self)@ == old(self)@.take(loc as int) + s@
                + old(self)@.skip(loc as int),
            loc > old(self)@.len() ==> r is Err && final(self)@ == old(self)@,
            r is Err ==> *final(self) == *old(self),
    {
        let mut loc_left = loc;
        let mut i: usize = 0;
        let ghost cv = self.chunk_views();
        let ghost whole = self@;
        while i < self.array.len()
            invariant
                self.wf(),
                *self == *old(self),
                cv == self.chunk_views(),
                whole == self@,
                whole.len() + s@.len() <= usize::MAX,
                i <= self.array.len(),
                loc == flat(cv.take(i as int)).len() + loc_left,
                i > 0 ==> loc_left > 0,
            decreases self.array.len() - i,
        {
            proof {
                lemma_flat_split(cv, i as int);
            }
            let clen = self.array[i].len();
            if loc_left <= clen {
                let ghost pre = cv.take(i as int);
                let ghost post = cv.skip(i as int + 1);
                let ghost chunk = cv[i as int];
                let pieces = self.insert_into_chunk(i, loc_left, s);
                proof {
                    assert(whole.take(loc as int) =~= flat(pre) + chunk.take(loc_left as int));
                    assert(whole.skip(loc as int) =~= chunk.skip(loc_left as int) + flat(post));
                    let nv = self.chunk_views();
                    lemma_flat_append(pre, pieces@);
                    lemma_flat_append(pre + pieces@, post);
                    assert(self@ =~= whole.take(loc as int) + s@ + whole.skip(loc as int));
                    assert(chunks_ok(nv, self.max_length_chars as nat)) by {
                        assert forall|k: int| 0 <= k < nv.len() implies 0 < #[trigger] nv[k].len()
                            <= self.max_length_chars by {
                            if k < pre.len() {
                                assert(nv[k] == pre[k]);
                                assert(pre[k] == cv[k]);
                            } else if k < pre.len() + pieces@.len() {
                                assert(nv[k] == pieces@[k - pre.len()]);
                            } else {
                                assert(nv[k] == post[k - pre.len() - pieces@.len()]);
                                assert(post[k - pre.len() - pieces@.len()] == cv[k - pieces@.len() + 1]);
                            }
                        }
                    }
                }
                return Ok(());
            }
            loc_left = loc_left - clen;
            i = i + 1;
        }
        assert(cv.take(i as int) =~= cv);
        if loc_left == 0 {
            if self.array.len() != 0 {
                // `loc` would have been found in the last chunk.
                assert(false);
            }
            self.append_to_empty(s);
            assert(whole =~= Seq::<char>::empty()) by {
                assert(cv =~= Seq::<Seq<char>>::empty());
            }
            assert(self@ =~= whole.take(loc as int) + s@ + whole.skip(loc as int));
            Ok(())
        } else {
            Err(())
        }
    }

    /// Puts the string `str` at position `loc`.
    pub fn insert_str(&mut self, loc: usize, str: &str) -> (r: BufferContentsResult<()>)
        requires
            old(self).wf(),
            old(self)@.len() + str@.len() <= usize::MAX,
        ensures
            final(self).wf(),
            final(self).max_chunk() == old(self).max_chunk(),
            final(self).preferred_chunk() == old(self).preferred_chunk(),
            loc <= old(self)@.len() ==> r is Ok && final(self)@ == old(self)@.take(loc as int) + str@
                + old(self)@.skip(loc as int),
            loc > old(self)@.len() ==> r is Err && final(self)@ == old(self)@,
            r is Err ==> *final(self) == *old(self),
    {
        let chars = chars_of(str);
        self.insert_chars(loc, &chars)
    }

    /// Puts the character `c` at position `loc`.
    pub fn insert(&mut self, loc: usize, c: char) -> (r: BufferContentsResult<()>)
        requires
            old(self).wf(),
            old(self)@.len() + 1 <= usize::MAX,
        ensures
            final(self).wf(),
            final(self).max_chunk() == old(self).max_chunk(),
            final(self).preferred_chunk() == old(self).preferred_chunk(),
            loc <= old(self)@.len() ==> r is Ok && final(self)@ == old(self)@.insert(loc as int, c),
            loc > old(self)@.len() ==> r is Err && final(self)@ == old(self)@,
            r is Err ==> *final(self) == *old(self),
    {
        let mut one: Vec<char> = Vec::new();
        one.push(c);
        let r = self.insert_chars(loc, &one);
        assert(loc <= old(self)@.len() ==> old(self)@.take(loc as int) + one@ + old(self)@.skip(loc as int)
            =~= old(self)@.insert(loc as int, c));
        r
    }
}

impl BufferContents {
    /// Removes the character at position `loc`. Deleting at the very end
    /// is accepted and changes nothing; past the end it is an error.
    pub fn delete(&mut self, loc: usize) -> (r: BufferContentsResult<()>)
        requires
            old(self).wf(),
        ensures
            final(self).wf(),
            final(self).max_chunk() == old(self).max_chunk(),
            final(self).preferred_chunk() == old(self).preferred_chunk(),
            loc < old(self)@.len() ==> r is Ok && final(self)@ == old(self)@.remove(loc as int),
            loc == old(self)@.len() ==> r is Ok && final(self)@ == old(self)@,
            loc > old(self)@.len() ==> r is Err && final(self)@ == old(self)@,
            r is Err ==> *final(self) == *old(self),
    {
        let mut loc_left = loc;
        let mut i: usize = 0;
        let ghost cv = self.chunk_views();
        let ghost whole = self@;
        while i < self.array.len()
            invariant
                self.wf(),
                *self == *old(self),
                cv == self.chunk_views(),
                whole == self@,
                i <= self.array.len(),
                loc == flat(cv.take(i as int)).len() + loc_left,
            decreases self.array.len() - i,
        {
            proof {
                lemma_flat_split(cv, i as int);
            }
            let clen = self.array[i].len();
            if loc_left < clen {
                let ghost pre = cv.take(i as int);
                let ghost post = cv.skip(i as int + 1);
                let ghost chunk = cv[i as int];
                let newc = remove_char_at(&self.array[i], loc_left);
                let ghost nc = newc@;
                assert(whole.remove(loc as int) =~= flat(pre) + chunk.remove(loc_left as int) + flat(post));
                if newc.len() == 0 {
                    self.array.remove(i);
                    proof {
                        assert(self.chunk_views() =~= pre + post);
                        lemma_flat_append(pre, post);
                        assert(self@ =~= whole.remove(loc as int));
                        let nv = self.chunk_views();
                        assert(chunks_ok(nv, self.max_length_chars as nat)) by {
                            assert forall|k: int| 0 <= k < nv.len() implies 0 < #[trigger] nv[k].len()
                                <= self.max_length_chars by {
                                if k < pre.len() {
                                    assert(nv[k] == cv[k]);
                                } else {
                                    assert(nv[k] == cv[k + 1]);
                                }
                            }
                        }
                    }
                } else {
                    self.array.set(i, newc);
                    proof {
                        let nv = self.chunk_views();
                        assert(nv =~= pre + seq![nc] + post);
                        lemma_flat_append(pre, seq![nc]);
                        lemma_flat_append(pre + seq![nc], post);
                        lemma_flat_one(nc);
                        assert(self@ =~= whole.remove(loc as int));
                        assert(chunks_ok(nv, self.max_length_chars as nat)) by {
                            assert forall|k: int| 0 <= k < nv.len() implies 0 < #[trigger] nv[k].len()
                                <= self.max_length_chars by {
                                if k != i {
                                    assert(nv[k] == cv[k]);
                                }
                            }
                        }
                    }
                }
                return Ok(());
            }
            loc_left = loc_left - clen;
            i = i + 1;
        }
        assert(cv.take(i as int) =~= cv);
        if loc_left == 0 {
            Ok(())
        } else {
            Err(())
        }
    }

    /// Removes the characters from `begin` up to `end`. Past the end of
    /// the text this removes everything after `begin`; it is an error only
    /// where `begin` is past the end and the region is not empty.
    pub fn delete_region(&mut self, begin: usize, end: usize) -> (r: BufferContentsResult<()>)
        requires
            old(self).wf(),
            begin <= end,
        ensures
            final(self).wf(),
            final(self).max_chunk() == old(self).max_chunk(),
            final(self).preferred_chunk() == old(self).preferred_chunk(),
            begin == end ==> r is Ok && final(self)@ == old(self)@,
            begin < end && begin <= old(self)@.len() ==> r is Ok && final(self)@ == old(self)@.take(
                begin as int,
            ) + old(self)@.skip(if end <= old(self)@.len() { end as int } else { old(self)@.len() as int }),
            begin < end && begin > old(self)@.len() ==> r is Err && final(self)@ == old(self)@,
            r is Err ==> *final(self) == *old(self),
    {
        let mut e = end;
        let ghost end0 = e;
        let ghost whole = self@;
        while begin != e
            invariant
                self.wf(),
                self.max_chunk() == old(self).max_chunk(),
                self.preferred_chunk() == old(self).preferred_chunk(),
                whole == old(self)@,
                begin <= e <= end0,
                end0 == end,
                begin > whole.len() ==> *self == *old(self) && e == end0,
                begin <= whole.len() ==> self@ == whole.take(begin as int) + whole.skip(
                    if begin + (end0 - e) <= whole.len() { begin + (end0 - e) } else { whole.len() as int },
                ),
            decreases e - begin,
        {
            let ghost before = self@;
            proof {
                if begin <= whole.len() {
                    assert(before.len() >= begin);
                }
            }
            let r = self.delete(begin);
            if r.is_err() {
                return r;
            }
            proof {
                if begin < before.len() {
                    assert(self@ =~= whole.take(begin as int) + whole.skip(
                        if begin + (end0 - e) + 1 <= whole.len() { begin + (end0 - e) + 1 } else { whole.len() as int },
                    ));
                }
            }
            e = e - 1;
        }
        proof {
            if begin <= whole.len() && begin == end0 {
                assert(whole =~= whole.take(begin as int) + whole.skip(begin as int));
            }
        }
        Ok(())
    }

    /// The characters from `begin` up to `end`, both cut to the length of the text.
    pub fn substring_chars(&self, begin: usize, end: usize) -> (r: Vec<char>)
        requires
            self.wf(),
            begin <= end,
        ensures
            r@ == self@.subrange(
                if begin <= self@.len() { begin as int } else { self@.len() as int },
                if end <= self@.len() { end as int } else { self@.len() as int },
            ),
    {
        let mut res: Vec<char> = Vec::new();
        let mut i: usize = 0;
        let mut off: usize = 0;
        let ghost cv = self.chunk_views();
        let ghost whole = self@;
        while i < self.array.len()
            invariant
                self.wf(),
                cv == self.chunk_views(),
                whole == self@,
                begin <= end,
                i <= self.array.len(),
                off == flat(cv.take(i as int)).len(),
                res@ == whole.subrange(
                    if begin <= off { begin as int } else { off as int },
                    if end <= off { end as int } else { off as int },
                ),
            decreases self.array.len() - i,
        {
            proof {
                lemma_flat_split(cv, i as int);
            }
            let clen = self.array[i].len();
            let mut j: usize = 0;
            while j < clen
                invariant
                    self.wf(),
                    cv == self.chunk_views(),
                    whole == self@,
                    begin <= end,
                    i < self.array.len(),
                    clen == cv[i as int].len(),
                    j <= clen,
                    off + clen <= whole.len(),
                    whole == flat(cv.take(i as int)) + cv[i as int] + flat(cv.skip(i + 1)),
                    off == flat(cv.take(i as int)).len(),
                    res@ == whole.subrange(
                        if begin <= off + j { begin as int } else { off + j },
                        if end <= off + j { end as int } else { off + j },
                    ),
                decreases clen - j,
            {
                let p = off + j;
                if begin <= p && p < end {
                    res.push(self.array[i][j]);
                    assert(whole[p as int] == cv[i as int][j as int]);
                }
                assert(res@ =~= whole.subrange(
                    if begin <= p + 1 { begin as int } else { p + 1 },
                    if end <= p + 1 { end as int } else { p + 1 },
                ));
                j = j + 1;
            }
            off = off + clen;
            i = i + 1;
        }
        assert(cv.take(i as int) =~= cv);
        res
    }

    /// The text from `begin` up to `end`, both cut to the length of the text.
    pub fn substring(&self, begin: usize, end: usize) -> (r: BufferContentsResult<String>)
        requires
            self.wf(),
            begin <= end,
        ensures
            r matches Ok(s) && s@ == self@.subrange(
                if begin <= self@.len() { begin as int } else { self@.len() as int },
                if end <= self@.len() { end as int } else { self@.len() as int },
            ),
    {
        let v = self.substring_chars(begin, end);
        Ok(string_from_chars(&v))
    }

    /// The characters of chunk `i`.
    pub fn chunk_string(&self, i: usize) -> (s: String)
        requires
            i < self.chunk_views().len(),
        ensures
            s@ == self.chunk_views()[i as int],
    {
        string_from_chars(&self.array[i])
    }

    /// The whole text.
    pub fn to_string(&self) -> (s: String)
        requires
            self.wf(),
        ensures
            s@ == self@,
    {
        let len = self.len();
        let v = self.substring_chars(0, len);
        assert(v@ =~= self@);
        string_from_chars(&v)
    }

    /// A text holding `s`, with the usual chunk lengths.
    pub fn from_str(s: &str) -> (b: Self)
        requires
            s@.len() <= usize::MAX,
        ensures
            b.wf(),
            b@ == s@,
            b.max_chunk() == MAX_LENGTH_CHARS,
            b.preferred_chunk() == PREFERRED_LENGTH_CHARS,
    {
        let mut b = BufferContents::new();
        let r = b.insert_str(0, s);
        assert(b@ =~= s@);
        b
    }

    /// An iterator over the characters.
    pub fn iter<'a>(&'a self) -> (it: BufferContentsIterator<'a>)
        requires
            self.wf(),
        ensures
            it.wf(),
            it.remaining() == self@,
    {
        let it = BufferContentsIterator { buffer_contents: self, outer: 0, inner: 0 };
        assert(self.chunk_views().take(0) =~= Seq::<Seq<char>>::empty());
        assert(self@.skip(0) =~= self@);
        it
    }
}

/// Walks over the characters of a `BufferContents`.
pub struct BufferContentsIterator<'a> {
    buffer_contents: &'a BufferContents,
    outer: usize,
    inner: usize,
}

impl<'a> BufferContentsIterator<'a> {
    pub closed spec fn wf(&self) -> bool {
        &&& self.buffer_contents.wf()
        &&& self.outer <= self.buffer_contents.chunk_views().len()
        &&& self.outer < self.buffer_contents.chunk_views().len() ==> self.inner
            <= self.buffer_contents.chunk_views()[self.outer as int].len()
        &&& self.outer == self.buffer_contents.chunk_views().len() ==> self.inner == 0
    }

    spec fn position(&self) -> int {
        flat(self.buffer_contents.chunk_views().take(self.outer as int)).len() + self.inner
    }

    /// The characters still to come.
    pub closed spec fn remaining(&self) -> Seq<char> {
        self.buffer_contents@.skip(self.position())
    }

    /// The next character, if any.
    pub fn next(&mut self) -> (r: Option<char>)
        requires
            old(self).wf(),
        ensures
            final(self).wf(),
            match r {
                None => old(self).remaining().len() == 0 && final(self).remaining() == old(self).remaining(),
                Some(c) => old(self).remaining().len() > 0 && c == old(self).remaining()[0]
                    && final(self).remaining() == old(self).remaining().drop_first(),
            },
    {
        let ghost cv = self.buffer_contents.chunk_views();
        let ghost whole = self.buffer_contents@;
        let ghost start = self.position();
        proof {
            if self.outer < cv.len() {
                lemma_flat_split(cv, self.outer as int);
            } else {
                assert(cv.take(self.outer as int) =~= cv);
            }
        }
        while self.outer < self.buffer_contents.array.len()
            invariant
                self.wf(),
                cv == self.buffer_contents.chunk_views(),
                whole == self.buffer_contents@,
                self.buffer_contents == old(self).buffer_contents,
                self.position() == start,
                start == old(self).position(),
                0 <= start <= whole.len(),
            decreases self.buffer_contents.array.len() - self.outer,
        {
            proof {
                lemma_flat_split(cv, self.outer as int);
            }
            if self.inner < self.buffer_contents.array[self.outer].len() {
                let c = self.buffer_contents.array[self.outer][self.inner];
                assert(start < whole.len());
                assert(old(self).remaining() == whole.skip(start));
                self.inner = self.inner + 1;
                assert(self.position() == start + 1);
                assert(whole[start] == c);
                assert(self.remaining() =~= old(self).remaining().drop_first());
                return Some(c);
            }
            self.outer = self.outer + 1;
            self.inner = 0;
            proof {
                lemma_flat_split(cv, self.outer - 1);
            }
        }
        assert(cv.take(self.outer as int) =~= cv);
        None
    }
}

enum MiddleChainState {
    Front(usize),
    Middle,
    Back,
}

/// Yields the first `offset` characters of `iter1`, then all of `iter2`,
/// then the rest of `iter1`.
pub struct MiddleChain {
    iter1: Vec<char>,
    pos1: usize,
    iter2: Vec<char>,
    pos2: usize,
    state: MiddleChainState,
}

impl MiddleChain {
    pub closed spec fn wf(&self) -> bool {
        &&& self.pos1 <= self.iter1.len()
        &&& self.pos2 <= self.iter2.len()
        &&& match self.state {
            MiddleChainState::Front(i) => 1 <= i && self.pos1 + i <= self.iter1.len(),
            _ => true,
        }
    }

    /// The characters still to come.
    pub closed spec fn remaining(&self) -> Seq<char> {
        match self.state {
            MiddleChainState::Front(i) => self.iter1@.subrange(self.pos1 as int, self.pos1 + i)
                + self.iter2@.skip(self.pos2 as int) + self.iter1@.skip(self.pos1 + i),
            MiddleChainState::Middle => self.iter2@.skip(self.pos2 as int) + self.iter1@.skip(
                self.pos1 as int,
            ),
            MiddleChainState::Back => self.iter1@.skip(self.pos1 as int),
        }
    }

    pub fn new(iter1: Vec<char>, iter2: Vec<char>, offset: usize) -> (m: Self)
        requires
            offset <= iter1.len(),
        ensures
            m.wf(),
            m.remaining() == iter1@.take(offset as int) + iter2@ + iter1@.skip(offset as int),
    {
        if offset == 0 {
            let m = MiddleChain { iter1, pos1: 0, iter2, pos2: 0, state: MiddleChainState::Middle };
            assert(m.remaining() =~= iter1@.take(offset as int) + iter2@ + iter1@.skip(offset as int));
            m
        } else {
            let m = MiddleChain {
                iter1,
                pos1: 0,
                iter2,
                pos2: 0,
                state: MiddleChainState::Front(offset),
            };
            assert(m.remaining() =~= iter1@.take(offset as int) + iter2@ + iter1@.skip(offset as int));
            m
        }
    }

    fn next_back(&mut self) -> (r: Option<char>)
        requires
            old(self).wf(),
            old(self).state is Back,
        ensures
            final(self).wf(),
            final(self).state is Back,
            match r {
                None => old(self).remaining().len() == 0 && final(self).remaining() == old(self).remaining(),
                Some(c) => old(self).remaining().len() > 0 && c == old(self).remaining()[0]
                    && final(self).remaining() == old(self).remaining().drop_first(),
            },
    {
        if self.pos1 < self.iter1.len() {
            let c = self.iter1[self.pos1];
            self.pos1 = self.pos1 + 1;
            assert(self.remaining() =~= old(self).remaining().drop_first());
            Some(c)
        } else {
            None
        }
    }

    /// The next character, if any.
    pub fn next(&mut self) -> (r: Option<char>)
        requires
            old(self).wf(),
        ensures
            final(self).wf(),
            match r {
                None => old(self).remaining().len() == 0 && final(self).remaining() == old(self).remaining(),
                Some(c) => old(self).remaining().len() > 0 && c == old(self).remaining()[0]
                    && final(self).remaining() == old(self).remaining().drop_first(),
            },
    {
        match self.state {
            MiddleChainState::Front(i) => {
                if i == 1 {
                    self.state = MiddleChainState::Middle;
                } else {
                    self.state = MiddleChainState::Front(i - 1);
                }
                let c = self.iter1[self.pos1];
                self.pos1 = self.pos1 + 1;
                assert(self.remaining() =~= old(self).remaining().drop_first());
                Some(c)
            },
            MiddleChainState::Middle => {
                if self.pos2 < self.iter2.len() {
                    let c = self.iter2[self.pos2];
                    self.pos2 = self.pos2 + 1;
                    assert(self.remaining() =~= old(self).remaining().drop_first());
                    Some(c)
                } else {
                    self.state = MiddleChainState::Back;
                    assert(self.remaining() =~= old(self).remaining());
                    self.next_back()
                }
            },
            MiddleChainState::Back => self.next_back(),
        }
    }

    /// The next `len` characters, or all that are left if fewer.
    pub fn take_(&mut self, len: usize) -> (s: Vec<char>)
        requires
            old(self).wf(),
        ensures
            final(self).wf(),
            s.len() <= len,
            s.len() <= old(self).remaining().len(),
            s@ == old(self).remaining().take(s.len() as int),
            final(self).remaining() == old(self).remaining().skip(s.len() as int),
            s.len() < len ==> s.len() == old(self).remaining().len(),
    {
        let mut s: Vec<char> = Vec::new();
        let mut l: usize = 0;
        while l < len
            invariant
                self.wf(),
                l <= len,
                s.len() == l,
                l <= old(self).remaining().len(),
                s@ == old(self).remaining().take(l as int),
                self.remaining() == old(self).remaining().skip(l as int),
            decreases len - l,
        {
            match self.next() {
                Some(c) => {
                    s.push(c);
                    assert(s@ =~= old(self).remaining().take(l + 1));
                    assert(self.remaining() =~= old(self).remaining().skip(l + 1));
                },
                None => {
                    return s;
                },
            }
            l = l + 1;
        }
        s
    }
}

/// Deleting from `loc` as many characters as `insert_str` put there gives
/// back the text from before: `u` is what `insert_str(loc, s)` makes of `t`,
/// and the second clause is what `delete_region(loc, loc + |s|)` makes of `u`.
pub proof fn law_delete_region_undoes_insert_str(t: Seq<char>, s: Seq<char>, loc: int)
    requires
        0 <= loc <= t.len(),
    ensures
        ({
            let u = t.take(loc) + s + t.skip(loc);
            &&& u.len() == t.len() + s.len()
            &&& u.take(loc) + u.skip(
                if loc + s.len() <= u.len() {
                    loc + s.len()
                } else {
                    u.len() as int
                },
            ) == t
        }),
{
    let u = t.take(loc) + s + t.skip(loc);
    assert(u.take(loc) + u.skip(loc + s.len()) =~= t);
}

/// Inserting a character is inserting the text of that one character: at
/// the same places both succeed and give the same text.
pub proof fn law_insert_is_insert_str_of_one(t: Seq<char>, c: char, loc: int)
    requires
        0 <= loc <= t.len(),
    ensures
        t.insert(loc, c) == t.take(loc) + seq![c] + t.skip(loc),
{
    assert(t.insert(loc, c) =~= t.take(loc) + seq![c] + t.skip(loc));
}

} // verus!
