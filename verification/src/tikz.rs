//! The pipeline session: a content-addressed render cache and the document
//! rewrite that drives it.
//!
//! The cache maps fingerprints to render results and is append-only: a key
//! is written at most once, nothing is ever evicted or overwritten, so a
//! result obtained once stays valid for the whole session.  A failed render
//! is cached exactly like a success, so a document repeating one broken
//! diagram attempts its render only once.

use vstd::prelude::*;

use crate::fingerprint::{fingerprint_of, compute_fingerprint};
use crate::placeholder::{entry_view, placeholder_chars, build_placeholder, filename_fingerprint,
    decode_filename, error_fingerprint, decode_error};
use crate::scan::{Block, BlockSpec, env_chars, env_name, match_at, blocks_from, blocks_of,
    count_newlines, newline_count, lemma_match_at_bounds, try_match};
use crate::svg::{width_clause, width_clause_of, entry_fault, MetadataFault};

verus! {

/// A cache entry at the specification level: rendered bytes or the recorded
/// failure message.
pub type EntrySpec = Result<Seq<u8>, Seq<char>>;

/// The fingerprint under which a block is cached.
pub open spec fn block_fingerprint(b: BlockSpec) -> u64 {
    fingerprint_of(env_chars(b.kind), b.payload)
}

/// `m2` carries every entry of `m1`, unchanged.
pub open spec fn extends(m2: Map<u64, EntrySpec>, m1: Map<u64, EntrySpec>) -> bool {
    forall|k: u64| #[trigger] m1.contains_key(k) ==> m2.contains_key(k) && m2[k] == m1[k]
}

pub open spec fn keys_unique(es: Seq<(u64, Result<Vec<u8>, String>)>) -> bool {
    forall|i: int, j: int|
        #![trigger es[i].0, es[j].0]
        0 <= i < j < es.len() ==> es[i].0 != es[j].0
}

/// The mapping a sequence of key/entry pairs denotes.
pub open spec fn entries_map(es: Seq<(u64, Result<Vec<u8>, String>)>) -> Map<u64, EntrySpec>
    decreases es.len(),
{
    if es.len() == 0 {
        Map::empty()
    } else {
        entries_map(es.drop_last()).insert(es.last().0, entry_view(es.last().1))
    }
}

pub proof fn lemma_entries_map_domain(es: Seq<(u64, Result<Vec<u8>, String>)>, k: u64)
    ensures
        entries_map(es).contains_key(k) <==> (exists|i: int|
            0 <= i < es.len() && #[trigger] es[i].0 == k),
    decreases es.len(),
{
    if es.len() > 0 {
        lemma_entries_map_domain(es.drop_last(), k);
        if entries_map(es).contains_key(k) {
            if k == es.last().0 {
                assert(es[es.len() - 1].0 == k);
            } else {
                let i = choose|i: int| 0 <= i < es.drop_last().len() && #[trigger] es.drop_last()[i].0 == k;
                assert(es[i].0 == k);
            }
        }
        if exists|i: int| 0 <= i < es.len() && #[trigger] es[i].0 == k {
            let i = choose|i: int| 0 <= i < es.len() && #[trigger] es[i].0 == k;
            if i < es.len() - 1 {
                assert(es.drop_last()[i].0 == k);
            }
        }
    }
}

pub proof fn lemma_entries_map_get(es: Seq<(u64, Result<Vec<u8>, String>)>, i: int)
    requires
        keys_unique(es),
        0 <= i < es.len(),
    ensures
        entries_map(es).contains_key(es[i].0),
        entries_map(es)[es[i].0] == entry_view(es[i].1),
    decreases es.len(),
{
    if i < es.len() - 1 {
        assert(es.drop_last()[i] == es[i]);
        assert(keys_unique(es.drop_last())) by {
            assert forall|a: int, b: int|
                0 <= a < b < es.drop_last().len() implies #[trigger] es.drop_last()[a].0
                != #[trigger] es.drop_last()[b].0 by {
                assert(es[a].0 != es[b].0);
            }
        }
        lemma_entries_map_get(es.drop_last(), i);
        assert(es[i].0 != es.last().0);
    }
}

/// One pipeline session: the append-only render cache.  The session driver
/// that owns it also owns the scratch directory the renders run in.
pub struct Tikz {
    images: Vec<(u64, Result<Vec<u8>, String>)>,
}

impl View for Tikz {
    type V = Map<u64, EntrySpec>;

    closed spec fn view(&self) -> Map<u64, EntrySpec> {
        entries_map(self.images@)
    }
}

impl Tikz {
    /// The cache's representation keeps each key at most once.
    pub closed spec fn inv(self) -> bool {
        keys_unique(self.images@)
    }

    /// A fresh session with an empty cache.
    pub fn new() -> (r: Self)
        ensures
            r.inv(),
            r@ == Map::<u64, EntrySpec>::empty(),
    {
        Tikz { images: Vec::new() }
    }

    /// Index of the entry for `fp`, if there is one.
    fn find_index(&self, fp: u64) -> (r: Option<usize>)
        requires
            self.inv(),
        ensures
            match r {
                Some(i) => i < self.images@.len() && self.images@[i as int].0 == fp
                    && self@.contains_key(fp) && self@[fp] == entry_view(self.images@[i as int].1),
                None => !self@.contains_key(fp),
            },
    {
        let n = self.images.len();
        let mut i: usize = 0;
        while i < n
            invariant
                self.inv(),
                n == self.images@.len(),
                i <= n,
                forall|j: int| 0 <= j < i ==> #[trigger] self.images@[j].0 != fp,
            decreases n - i,
        {
            if self.images[i].0 == fp {
                proof {
                    lemma_entries_map_get(self.images@, i as int);
                }
                return Some(i);
            }
            i = i + 1;
        }
        proof {
            lemma_entries_map_domain(self.images@, fp);
        }
        None
    }

    /// Is a result already recorded for `fp`?
    pub fn contains(&self, fp: u64) -> (r: bool)
        requires
            self.inv(),
        ensures
            r == self@.contains_key(fp),
    {
        self.find_index(fp).is_some()
    }

    /// Non-mutating read of the entry recorded for `fp`.
    pub fn lookup(&self, fp: u64) -> (r: Option<&Result<Vec<u8>, String>>)
        requires
            self.inv(),
        ensures
            match r {
                Some(e) => self@.contains_key(fp) && entry_view(*e) == self@[fp],
                None => !self@.contains_key(fp),
            },
    {
        match self.find_index(fp) {
            Some(i) => Some(&self.images[i].1),
            None => None,
        }
    }

    /// Record the result for a fingerprint not yet present.  Every earlier
    /// entry is kept unchanged: the cache only ever grows.
    pub fn insert(&mut self, fp: u64, entry: Result<Vec<u8>, String>)
        requires
            old(self).inv(),
            !old(self)@.contains_key(fp),
        ensures
            final(self).inv(),
            final(self)@ == old(self)@.insert(fp, entry_view(entry)),
            extends(final(self)@, old(self)@),
    {
        proof {
            lemma_entries_map_domain(self.images@, fp);
        }
        let ghost old_es = self.images@;
        self.images.push((fp, entry));
        proof {
            assert(self.images@.drop_last() =~= old_es);
            assert(keys_unique(self.images@)) by {
                assert forall|a: int, b: int|
                    0 <= a < b < self.images@.len() implies #[trigger] self.images@[a].0
                    != #[trigger] self.images@[b].0 by {
                    if b < self.images@.len() - 1 {
                        assert(old_es[a].0 != old_es[b].0);
                    } else {
                        assert(old_es[a].0 == self.images@[a].0);
                    }
                }
            }
        }
    }

    /// Return the recorded result for `fp`, or invoke `compute` exactly
    /// once, record its result, and return that.  An existing entry is
    /// returned as it was recorded, untouched by the call, and no other
    /// entry is affected either way.
    pub fn get_or_compute<F: FnOnce() -> Result<Vec<u8>, String>>(
        &mut self,
        fp: u64,
        compute: F,
    ) -> (r: &Result<Vec<u8>, String>)
        requires
            old(self).inv(),
            compute.requires(()),
        ensures
            final(self).inv(),
            extends(final(self)@, old(self)@),
            final(self)@.contains_key(fp),
            entry_view(*r) == final(self)@[fp],
            old(self)@.contains_key(fp) ==> final(self)@ == old(self)@
                && final(self)@[fp] == old(self)@[fp],
            !old(self)@.contains_key(fp) ==> exists|e: Result<Vec<u8>, String>|
                compute.ensures((), e) && final(self)@ == old(self)@.insert(fp, entry_view(e)),
    {
        if self.contains(fp) {
            match self.find_index(fp) {
                Some(i) => {
                    return &self.images[i].1;
                },
                None => {
                    return vstd::pervasive::unreached();
                },
            }
        }
        let e = compute();
        self.insert(fp, e);
        match self.find_index(fp) {
            Some(i) => &self.images[i].1,
            None => vstd::pervasive::unreached(),
        }
    }

    /// The recorded result for a fingerprint known to be cached; asking for
    /// one that is not is a caller's programming error, ruled out here.
    pub fn fetch(&self, index: u64) -> (r: &Result<Vec<u8>, String>)
        requires
            self.inv(),
            self@.contains_key(index),
        ensures
            entry_view(*r) == self@[index],
    {
        match self.find_index(index) {
            Some(i) => &self.images[i].1,
            None => vstd::pervasive::unreached(),
        }
    }

    /// Decode a placeholder filename of the `prefix + digits + suffix`
    /// shape back to its fingerprint; anything else is not a placeholder.
    pub fn is_filename(name: &str) -> (r: Option<u64>)
        ensures
            r == filename_fingerprint(name@),
    {
        decode_filename(name)
    }

    /// Decode a host compiler missing-file error (its message, and the
    /// quoted span text it points at) into the placeholder fingerprint it
    /// names, if it names one.
    pub fn is_error(message: &str, span_text: &str) -> (r: Option<u64>)
        ensures
            r == error_fingerprint(message@, span_text@),
    {
        decode_error(message, span_text)
    }
}

/// Is the entry usable by the rewrite: a failure, or a success whose bytes
/// yield a width clause.
pub open spec fn entry_ok(e: EntrySpec) -> bool {
    match e {
        Ok(bytes) => width_clause_of(bytes) is Some,
        Err(_) => true,
    }
}

/// The rewritten document from position `i` on: every matched block becomes
/// its placeholder (looked up in `m` by fingerprint), every other character
/// stays as it is.
pub open spec fn rewrite_from(s: Seq<char>, i: int, m: Map<u64, EntrySpec>) -> Seq<char>
    decreases s.len() - i,
{
    if i < 0 || i >= s.len() {
        Seq::empty()
    } else {
        match match_at(s, i) {
            Some(b) => placeholder_chars(
                block_fingerprint(b),
                m[block_fingerprint(b)],
                count_newlines(b.payload),
            ) + rewrite_from(
                s,
                if i < b.end && b.end <= s.len() {
                    b.end
                } else {
                    i + 1
                },
                m,
            ),
            None => seq![s[i]] + rewrite_from(s, i + 1, m),
        }
    }
}

/// The rewritten document.
pub open spec fn rewrite_of(s: Seq<char>, m: Map<u64, EntrySpec>) -> Seq<char> {
    rewrite_from(s, 0, m)
}

/// Every block of `s` from position `i` on has a usable entry in `m`.
pub open spec fn widths_ok(s: Seq<char>, i: int, m: Map<u64, EntrySpec>) -> bool
    decreases s.len() - i,
{
    if i < 0 || i >= s.len() {
        true
    } else {
        match match_at(s, i) {
            Some(b) => m.contains_key(block_fingerprint(b)) && entry_ok(m[block_fingerprint(b)])
                && widths_ok(
                s,
                if i < b.end && b.end <= s.len() {
                    b.end
                } else {
                    i + 1
                },
                m,
            ),
            None => widths_ok(s, i + 1, m),
        }
    }
}

pub proof fn lemma_extends_trans(m3: Map<u64, EntrySpec>, m2: Map<u64, EntrySpec>, m1: Map<
    u64,
    EntrySpec,
>)
    requires
        extends(m3, m2),
        extends(m2, m1),
    ensures
        extends(m3, m1),
{
    assert forall|k: u64| #[trigger] m1.contains_key(k) implies m3.contains_key(k) && m3[k]
        == m1[k] by {
        assert(m2.contains_key(k) && m2[k] == m1[k]);
    }
}

/// Across a stretch with no match, the rewrite copies the text unchanged,
/// and the scan state is untouched.
pub proof fn lemma_scan_segment(s: Seq<char>, i: int, j: int, m: Map<u64, EntrySpec>)
    requires
        0 <= i <= j <= s.len(),
        forall|l: int| i <= l < j ==> match_at(s, l) is None,
    ensures
        rewrite_from(s, i, m) == s.subrange(i, j) + rewrite_from(s, j, m),
        widths_ok(s, i, m) == widths_ok(s, j, m),
        blocks_from(s, i) == blocks_from(s, j),
    decreases j - i,
{
    if i == j {
        assert(s.subrange(i, j) =~= Seq::<char>::empty());
        assert(s.subrange(i, j) + rewrite_from(s, j, m) =~= rewrite_from(s, j, m));
    } else {
        assert(match_at(s, i) is None);
        lemma_scan_segment(s, i + 1, j, m);
        assert(s.subrange(i, j) =~= seq![s[i]] + s.subrange(i + 1, j));
        assert(seq![s[i]] + (s.subrange(i + 1, j) + rewrite_from(s, j, m)) =~= (seq![s[i]]
            + s.subrange(i + 1, j)) + rewrite_from(s, j, m));
    }
}

/// The processed prefix of the rewrite is settled: however the cache grows
/// from `cur`, the document's rewrite is `out` followed by the rewrite of
/// the rest, and the remaining blocks decide usability alone.
spec fn prefix_done(s: Seq<char>, i: int, cur: Map<u64, EntrySpec>, out: Seq<char>) -> bool {
    forall|m: Map<u64, EntrySpec>| #[trigger]
        extends(m, cur) ==> rewrite_from(s, 0, m) == out + rewrite_from(s, i, m) && (widths_ok(
            s,
            0,
            m,
        ) <==> widths_ok(s, i, m))
}

/// The document with each listed block replaced by its placeholder: the
/// text before the first block verbatim, its placeholder, and so on, with
/// the text after the last block verbatim.
pub open spec fn splice(s: Seq<char>, i: int, bs: Seq<BlockSpec>, m: Map<u64, EntrySpec>) -> Seq<
    char,
>
    decreases bs.len(),
{
    if bs.len() == 0 {
        s.subrange(i, s.len() as int)
    } else {
        s.subrange(i, bs[0].start) + placeholder_chars(
            block_fingerprint(bs[0]),
            m[block_fingerprint(bs[0])],
            count_newlines(bs[0].payload),
        ) + splice(s, bs[0].end, bs.drop_first(), m)
    }
}

pub proof fn lemma_blocks_from_head(s: Seq<char>, j: int)
    requires
        0 <= j,
        blocks_from(s, j).len() > 0,
    ensures
        j <= blocks_from(s, j)[0].start,
        match_at(s, blocks_from(s, j)[0].start) == Some(blocks_from(s, j)[0]),
    decreases s.len() - j,
{
    if j < s.len() {
        match match_at(s, j) {
            Some(b) => {
                lemma_match_at_bounds(s, j);
                assert(blocks_from(s, j)[0] == b);
            },
            None => {
                lemma_blocks_from_head(s, j + 1);
                assert(blocks_from(s, j) == blocks_from(s, j + 1));
            },
        }
    }
}

/// The rewrite is exactly a splice: each extracted block, in order of
/// appearance, becomes its placeholder, and every character outside the
/// blocks is kept verbatim.
pub proof fn lemma_rewrite_is_splice(s: Seq<char>, i: int, m: Map<u64, EntrySpec>)
    requires
        0 <= i <= s.len(),
    ensures
        rewrite_from(s, i, m) == splice(s, i, blocks_from(s, i), m),
    decreases s.len() - i,
{
    if i >= s.len() {
        assert(s.subrange(i, s.len() as int) =~= Seq::<char>::empty());
    } else {
        match match_at(s, i) {
            Some(b) => {
                lemma_match_at_bounds(s, i);
                lemma_rewrite_is_splice(s, b.end, m);
                let bs = blocks_from(s, i);
                let ph = placeholder_chars(
                    block_fingerprint(b),
                    m[block_fingerprint(b)],
                    count_newlines(b.payload),
                );
                assert(bs == seq![b] + blocks_from(s, b.end));
                assert(bs[0] == b);
                assert(bs.drop_first() =~= blocks_from(s, b.end));
                assert(s.subrange(i, b.start) =~= Seq::<char>::empty());
                assert((s.subrange(i, b.start) + ph) + splice(s, b.end, bs.drop_first(), m) =~= ph
                    + splice(s, b.end, bs.drop_first(), m));
            },
            None => {
                lemma_rewrite_is_splice(s, i + 1, m);
                let bs = blocks_from(s, i + 1);
                assert(blocks_from(s, i) == bs);
                if bs.len() == 0 {
                    assert(s.subrange(i, s.len() as int) =~= seq![s[i]] + s.subrange(
                        i + 1,
                        s.len() as int,
                    ));
                } else {
                    lemma_blocks_from_head(s, i + 1);
                    let b0 = bs[0];
                    lemma_match_at_bounds(s, b0.start);
                    let ph = placeholder_chars(
                        block_fingerprint(b0),
                        m[block_fingerprint(b0)],
                        count_newlines(b0.payload),
                    );
                    let rest = splice(s, b0.end, bs.drop_first(), m);
                    assert(s.subrange(i, b0.start) =~= seq![s[i]] + s.subrange(i + 1, b0.start));
                    assert(((seq![s[i]] + s.subrange(i + 1, b0.start)) + ph) + rest =~= seq![s[i]]
                        + ((s.subrange(i + 1, b0.start) + ph) + rest));
                }
            },
        }
    }
}

/// For a document with any number of diagram blocks, the rewrite holds
/// exactly one embed placeholder per block, in the blocks' order, and all
/// non-block text is identical to the input.
pub proof fn lemma_rewrite_structure(s: Seq<char>, m: Map<u64, EntrySpec>)
    ensures
        rewrite_of(s, m) == splice(s, 0, blocks_of(s), m),
{
    lemma_rewrite_is_splice(s, 0, m);
}

/// Blocks of one kind with byte-identical payloads share one fingerprint:
/// the second block finds the first's cache entry, so its diagram is
/// rendered at most once and both placeholders carry the same identifier.
pub proof fn lemma_equal_blocks_share_fingerprint(b1: BlockSpec, b2: BlockSpec)
    requires
        b1.kind == b2.kind,
        b1.payload == b2.payload,
    ensures
        block_fingerprint(b1) == block_fingerprint(b2),
{
}

/// Position of the next matching block at or after `from`, with the block.
fn find_next(s: &str, from: usize) -> (r: (usize, Option<Block>))
    requires
        from <= s@.len(),
    ensures
        from <= r.0 <= s@.len(),
        forall|l: int| from <= l < r.0 ==> match_at(s@, l) is None,
        match r.1 {
            Some(b) => r.0 < s@.len() && match_at(s@, r.0 as int) == Some(b@),
            None => r.0 == s@.len(),
        },
{
    let n: usize = s.unicode_len();
    let mut j: usize = from;
    while j < n
        invariant
            n == s@.len(),
            from <= j <= n,
            forall|l: int| from <= l < j ==> match_at(s@, l) is None,
        decreases n - j,
    {
        match try_match(s, j) {
            Some(b) => {
                return (j, Some(b));
            },
            None => {
                j = j + 1;
            },
        }
    }
    (n, None)
}

impl Tikz {
    /// Rewrite the document: each diagram block, in order of appearance,
    /// becomes an embed directive carrying its encoded fingerprint (and,
    /// for a successful render, the image's width clause), with the
    /// payload's newlines preserved; all other text is kept verbatim.  A
    /// block whose fingerprint is cached is not rendered again; otherwise
    /// `render` is called once for it and its result recorded.  The cache
    /// only grows, only by the blocks' fingerprints, and an
    /// internal-consistency fault in a rendered image's metadata aborts the
    /// rewrite instead of being swallowed.
    pub fn replace<F: Fn(&Block) -> Result<Vec<u8>, String>>(
        &mut self,
        buffer: &str,
        render: F,
    ) -> (r: Result<String, MetadataFault>)
        requires
            old(self).inv(),
            forall|b: Block| #[trigger] render.requires((&b,)),
        ensures
            final(self).inv(),
            extends(final(self)@, old(self)@),
            forall|k: u64| #[trigger]
                final(self)@.contains_key(k) ==> old(self)@.contains_key(k) || exists|b: BlockSpec|
                    #[trigger] blocks_of(buffer@).contains(b) && block_fingerprint(b) == k,
            forall|k: u64|
                #![trigger final(self)@.contains_key(k)]
                final(self)@.contains_key(k) && !old(self)@.contains_key(k) ==> exists|
                    b: Block,
                    res: Result<Vec<u8>, String>,
                |
                    #[trigger] render.ensures((&b,), res) && blocks_of(buffer@).contains(b@)
                        && block_fingerprint(b@) == k && final(self)@[k] == entry_view(res),
            match r {
                Ok(out) => widths_ok(buffer@, 0, final(self)@) && out@ == rewrite_of(
                    buffer@,
                    final(self)@,
                ),
                Err(f) => !widths_ok(buffer@, 0, final(self)@) && exists|b: BlockSpec|
                    #[trigger] blocks_of(buffer@).contains(b) && final(self)@.contains_key(
                        block_fingerprint(b),
                    ) && entry_fault(final(self)@[block_fingerprint(b)], f),
            },
    {
        let ghost s = buffer@;
        let n: usize = buffer.unicode_len();
        let mut out = String::new();
        let mut i: usize = 0;
        let ghost mut done: Seq<BlockSpec> = Seq::empty();
        proof {
            assert forall|m: Map<u64, EntrySpec>| #[trigger] extends(m, self@) implies rewrite_from(
                s,
                0,
                m,
            ) == out@ + rewrite_from(s, 0, m) && (widths_ok(s, 0, m) <==> widths_ok(s, 0, m)) by {
                assert(out@ + rewrite_from(s, 0, m) =~= rewrite_from(s, 0, m));
            }
        }
        while i < n
            invariant
                self.inv(),
                s == buffer@,
                n == s.len(),
                i <= n,
                extends(self@, old(self)@),
                blocks_of(s) == done + blocks_from(s, i as int),
                forall|k: u64| #[trigger]
                    self@.contains_key(k) ==> old(self)@.contains_key(k) || exists|b: BlockSpec|
                        #[trigger] blocks_of(s).contains(b) && block_fingerprint(b) == k,
                forall|k: u64|
                    #![trigger self@.contains_key(k)]
                    self@.contains_key(k) && !old(self)@.contains_key(k) ==> exists|
                        bb: Block,
                        res: Result<Vec<u8>, String>,
                    |
                        #[trigger] render.ensures((&bb,), res) && blocks_of(s).contains(bb@)
                            && block_fingerprint(bb@) == k && self@[k] == entry_view(res),
                prefix_done(s, i as int, self@, out@),
                forall|b: Block| #[trigger] render.requires((&b,)),
            decreases n - i,
        {
            let ghost cur0 = self@;
            let ghost out0 = out@;
            let pair = find_next(buffer, i);
            let j = pair.0;
            let found = pair.1;
            out.append(buffer.substring_char(i, j));
            proof {
                assert forall|m: Map<u64, EntrySpec>| #[trigger]
                    extends(m, cur0) implies rewrite_from(s, 0, m) == out@ + rewrite_from(
                    s,
                    j as int,
                    m,
                ) && (widths_ok(s, 0, m) <==> widths_ok(s, j as int, m)) by {
                    lemma_scan_segment(s, i as int, j as int, m);
                    assert(out0 + (s.subrange(i as int, j as int) + rewrite_from(s, j as int, m))
                        =~= (out0 + s.subrange(i as int, j as int)) + rewrite_from(s, j as int, m));
                }
                assert(prefix_done(s, j as int, cur0, out@));
                lemma_scan_segment(s, i as int, j as int, Map::empty());
            }
            match found {
                None => {
                    i = j;
                },
                Some(b) => {
                    proof {
                        lemma_match_at_bounds(s, j as int);
                    }
                    let fpv = compute_fingerprint(env_name(b.kind), b.payload.as_str());
                    let nl = newline_count(b.payload.as_str());
                    proof {
                        assert(fpv == block_fingerprint(b@));
                        assert(blocks_from(s, j as int) == seq![b@] + blocks_from(
                            s,
                            b@.end,
                        ));
                        assert(blocks_of(s)[done.len() as int] == b@);
                        assert(blocks_of(s).contains(b@));
                    }
                    let ghost mut gres: Result<Vec<u8>, String> = vstd::pervasive::arbitrary();
                    if !self.contains(fpv) {
                        let res = render(&b);
                        proof {
                            gres = res;
                        }
                        self.insert(fpv, res);
                    }
                    proof {
                        assert(extends(self@, cur0));
                        assert(self@.contains_key(fpv));
                        assert forall|k: u64|
                            self@.contains_key(k) && !old(self)@.contains_key(
                                k,
                            ) implies exists|bb: Block, res: Result<Vec<u8>, String>|
                            #[trigger] render.ensures((&bb,), res) && blocks_of(s).contains(bb@)
                                && block_fingerprint(bb@) == k && self@[k] == entry_view(res) by {
                            if cur0.contains_key(k) {
                                let (bb, res) = choose|bb: Block, res: Result<Vec<u8>, String>|
                                    #[trigger] render.ensures((&bb,), res) && blocks_of(s).contains(
                                        bb@,
                                    ) && block_fingerprint(bb@) == k && cur0[k] == entry_view(res);
                                assert(self@[k] == cur0[k]);
                                assert(render.ensures((&bb,), res) && blocks_of(s).contains(bb@)
                                    && block_fingerprint(bb@) == k && self@[k] == entry_view(res));
                            } else {
                                assert(k == fpv);
                                assert(render.ensures((&b,), gres) && blocks_of(s).contains(b@)
                                    && block_fingerprint(b@) == k && self@[k] == entry_view(gres));
                            }
                        }
                    }
                    let entry = self.fetch(fpv);
                    let width = match entry {
                        Ok(bytes) => match width_clause(bytes) {
                            Ok(w) => Some(w),
                            Err(f) => {
                                proof {
                                    assert(extends(self@, self@));
                                    assert(!entry_ok(self@[fpv]));
                                    assert(!widths_ok(s, j as int, self@));
                                    assert(!widths_ok(s, 0, self@));
                                    assert(blocks_of(s).contains(b@) && self@.contains_key(
                                        block_fingerprint(b@),
                                    ) && entry_fault(self@[block_fingerprint(b@)], f));
                                }
                                return Err(f);
                            },
                        },
                        Err(_) => None,
                    };
                    let ph = match &width {
                        Some(w) => build_placeholder(fpv, Some(w), nl),
                        None => build_placeholder(fpv, None, nl),
                    };
                    proof {
                        assert(entry_ok(self@[fpv]));
                        assert(ph@ == placeholder_chars(fpv, self@[fpv], nl as nat));
                    }
                    let ghost out_mid = out@;
                    out.append(ph.as_str());
                    let ghost e = b@.end;
                    proof {
                        assert forall|m: Map<u64, EntrySpec>| #[trigger]
                            extends(m, self@) implies rewrite_from(s, 0, m) == out@ + rewrite_from(
                            s,
                            e,
                            m,
                        ) && (widths_ok(s, 0, m) <==> widths_ok(s, e, m)) by {
                            lemma_extends_trans(m, self@, cur0);
                            assert(m.contains_key(fpv) && m[fpv] == self@[fpv]);
                            assert(rewrite_from(s, j as int, m) == placeholder_chars(
                                fpv,
                                m[fpv],
                                count_newlines(b@.payload),
                            ) + rewrite_from(s, e, m));
                            assert(out_mid + (ph@ + rewrite_from(s, e, m)) =~= (out_mid + ph@)
                                + rewrite_from(s, e, m));
                            assert(widths_ok(s, j as int, m) <==> widths_ok(s, e, m));
                        }
                        assert(prefix_done(s, e, self@, out@));
                        done = done + seq![b@];
                        assert(blocks_of(s) =~= done + blocks_from(s, e));
                    }
                    i = b.end;
                },
            }
        }
        proof {
            assert(extends(self@, self@));
            assert(rewrite_from(s, n as int, self@) =~= Seq::<char>::empty());
            assert(out@ + rewrite_from(s, n as int, self@) =~= out@);
            assert(out@ == rewrite_of(s, self@));
            assert(widths_ok(s, 0, self@));
        }
        Ok(out)
    }
}

} // verus!
