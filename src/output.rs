use vstd::prelude::*;
use vstd::string::StringSliceAdditionalSpecFns;

use crate::syntax::Span;

verus! {

/// One append to the output: its bytes, and the source span they were copied
/// from, or `None` for synthesized text.
pub struct Piece {
    pub text: Seq<u8>,
    pub source: Option<Span>,
}

/// A correspondence as the contracts speak of it.
pub struct RecordModel {
    pub output_start: int,
    pub output_end: int,
    pub source: Span,
}

/// Pairs a span of the generated output with the span of the source it came from.
#[derive(Clone, Copy, Debug, PartialEq, Eq, Structural)]
pub struct Correspondence {
    pub output: Span,
    pub source: Span,
}

impl Correspondence {
    pub open spec fn model(self) -> RecordModel {
        RecordModel {
            output_start: self.output.start as int,
            output_end: self.output.end as int,
            source: self.source,
        }
    }
}

pub open spec fn models(rs: Seq<Correspondence>) -> Seq<RecordModel> {
    rs.map_values(|c: Correspondence| c.model())
}

/// Synthesized text.
pub open spec fn lit(s: &str) -> Piece {
    Piece { text: s.spec_bytes(), source: None }
}

/// The output text that a sequence of appends produces.
pub open spec fn text_of(ps: Seq<Piece>) -> Seq<u8>
    decreases ps.len(),
{
    if ps.len() == 0 {
        Seq::empty()
    } else {
        text_of(ps.drop_last()) + ps.last().text
    }
}

/// The correspondences that a sequence of appends records: one for each
/// sourced piece, covering exactly the bytes that piece appended.
pub open spec fn records_of(ps: Seq<Piece>) -> Seq<RecordModel>
    decreases ps.len(),
{
    if ps.len() == 0 {
        Seq::empty()
    } else {
        let prev = ps.drop_last();
        let p = ps.last();
        match p.source {
            Some(s) => records_of(prev).push(
                RecordModel {
                    output_start: text_of(prev).len() as int,
                    output_end: (text_of(prev).len() + p.text.len()) as int,
                    source: s,
                },
            ),
            None => records_of(prev),
        }
    }
}

/// Every sourced piece holds exactly the source bytes of its span.
#[verifier::opaque]
pub open spec fn faithful(ps: Seq<Piece>, src: Seq<u8>) -> bool {
    forall|j: int|
        0 <= j < ps.len() && (#[trigger] ps[j]).source is Some ==> {
            let s = ps[j].source->Some_0;
            &&& s.start <= s.end <= src.len()
            &&& ps[j].text == src.subrange(s.start as int, s.end as int)
        }
}

/// The part of the output that has a source mapping, in order.
pub open spec fn mapped_text(ps: Seq<Piece>) -> Seq<u8>
    decreases ps.len(),
{
    if ps.len() == 0 {
        Seq::empty()
    } else {
        mapped_text(ps.drop_last()) + match ps.last().source {
            Some(_) => ps.last().text,
            None => Seq::empty(),
        }
    }
}

/// The slices of `out` that the records name, concatenated in record order.
pub open spec fn record_slices(out: Seq<u8>, rs: Seq<RecordModel>) -> Seq<u8>
    decreases rs.len(),
{
    if rs.len() == 0 {
        Seq::empty()
    } else {
        record_slices(out, rs.drop_last()) + out.subrange(rs.last().output_start, rs.last().output_end)
    }
}

/// Each record names a span of the output that lies within it.
pub open spec fn records_within(rs: Seq<RecordModel>, len: int) -> bool {
    forall|k: int|
        0 <= k < rs.len() ==> 0 <= (#[trigger] rs[k]).output_start <= rs[k].output_end <= len
}

pub proof fn lemma_records_within(ps: Seq<Piece>)
    ensures
        records_within(records_of(ps), text_of(ps).len() as int),
    decreases ps.len(),
{
    if ps.len() > 0 {
        lemma_records_within(ps.drop_last());
    }
}

/// Records come in output order: each ends before the next begins.
pub open spec fn records_ordered(rs: Seq<RecordModel>) -> bool {
    forall|k: int, l: int|
        0 <= k < l < rs.len() ==> (#[trigger] rs[k]).output_end <= (#[trigger] rs[l]).output_start
}

/// The records of any sequence of appends are in output order.
pub proof fn lemma_records_ordered(ps: Seq<Piece>)
    ensures
        records_ordered(records_of(ps)),
    decreases ps.len(),
{
    if ps.len() > 0 {
        let prev = ps.drop_last();
        lemma_records_ordered(prev);
        lemma_records_within(prev);
        let rs = records_of(ps);
        let old_rs = records_of(prev);
        assert forall|k: int, l: int| 0 <= k < l < rs.len() implies (#[trigger] rs[k]).output_end
            <= (#[trigger] rs[l]).output_start by {
            assert(rs[k] == old_rs[k]);
            if l < old_rs.len() {
                assert(rs[l] == old_rs[l]);
            }
        }
    }
}

proof fn lemma_record_slices_prefix(out: Seq<u8>, extra: Seq<u8>, rs: Seq<RecordModel>)
    requires
        records_within(rs, out.len() as int),
    ensures
        record_slices(out + extra, rs) == record_slices(out, rs),
    decreases rs.len(),
{
    if rs.len() > 0 {
        let r = rs.last();
        assert(rs[rs.len() - 1] == r);
        lemma_record_slices_prefix(out, extra, rs.drop_last());
        assert((out + extra).subrange(r.output_start, r.output_end) =~= out.subrange(
            r.output_start,
            r.output_end,
        ));
    }
}

/// Concatenating, in record order, the output slices that the records name
/// gives exactly the output text that has a source mapping.
pub proof fn lemma_record_slices(ps: Seq<Piece>)
    ensures
        record_slices(text_of(ps), records_of(ps)) == mapped_text(ps),
    decreases ps.len(),
{
    if ps.len() > 0 {
        let prev = ps.drop_last();
        let p = ps.last();
        lemma_record_slices(prev);
        lemma_records_within(prev);
        lemma_record_slices_prefix(text_of(prev), p.text, records_of(prev));
        if p.source is Some {
            let t = text_of(prev) + p.text;
            assert(t.subrange(text_of(prev).len() as int, t.len() as int) =~= p.text);
            assert(records_of(ps).drop_last() =~= records_of(prev));
        } else {
            assert(mapped_text(ps) =~= mapped_text(prev));
        }
    }
}

/// Each record's output span holds exactly the source bytes of its source span.
pub proof fn lemma_records_faithful(ps: Seq<Piece>, src: Seq<u8>)
    requires
        faithful(ps, src),
    ensures
        forall|k: int|
            0 <= k < records_of(ps).len() ==> {
                let r = #[trigger] records_of(ps)[k];
                &&& 0 <= r.output_start <= r.output_end <= text_of(ps).len()
                &&& r.source.start <= r.source.end <= src.len()
                &&& text_of(ps).subrange(r.output_start, r.output_end) == src.subrange(
                    r.source.start as int,
                    r.source.end as int,
                )
            },
    decreases ps.len(),
{
    if ps.len() > 0 {
        let prev = ps.drop_last();
        let p = ps.last();
        reveal(faithful);
        assert forall|j: int| 0 <= j < prev.len() && (#[trigger] prev[j]).source is Some implies {
            let s = prev[j].source->Some_0;
            &&& s.start <= s.end <= src.len()
            &&& prev[j].text == src.subrange(s.start as int, s.end as int)
        } by {
            assert(prev[j] == ps[j]);
        }
        lemma_records_faithful(prev, src);
        let t = text_of(ps);
        assert(t == text_of(prev) + p.text);
        assert forall|k: int| 0 <= k < records_of(ps).len() implies {
            let r = #[trigger] records_of(ps)[k];
            &&& 0 <= r.output_start <= r.output_end <= t.len()
            &&& r.source.start <= r.source.end <= src.len()
            &&& t.subrange(r.output_start, r.output_end) == src.subrange(
                r.source.start as int,
                r.source.end as int,
            )
        } by {
            let r = records_of(ps)[k];
            if k < records_of(prev).len() {
                assert(r == records_of(prev)[k]);
                assert(t.subrange(r.output_start, r.output_end) =~= text_of(prev).subrange(
                    r.output_start,
                    r.output_end,
                ));
            } else {
                assert(ps[ps.len() - 1] == p);
                assert(t.subrange(r.output_start, r.output_end) =~= p.text);
            }
        }
    }
}

/// The output buffer of one run and the correspondences recorded into it.
pub struct Transpilation {
    pub output: Vec<u8>,
    pub records: Vec<Correspondence>,
    /// The appends made so far.
    pub pieces: Ghost<Seq<Piece>>,
    /// The source text that the run reads.
    pub source: Ghost<Seq<u8>>,
}

impl Transpilation {
    /// The buffer holds exactly the appends made so far, and their correspondences.
    pub open spec fn wf(&self) -> bool {
        &&& self.output@ == text_of(self.pieces@)
        &&& models(self.records@) == records_of(self.pieces@)
        &&& faithful(self.pieces@, self.source@)
    }

    /// An empty buffer for a run over `source`.
    pub fn new(source: &[u8]) -> (r: Transpilation)
        ensures
            r.wf(),
            r.pieces@ == Seq::<Piece>::empty(),
            r.source@ == source@,
    {
        let r = Transpilation {
            output: Vec::new(),
            records: Vec::new(),
            pieces: Ghost(Seq::empty()),
            source: Ghost(source@),
        };
        reveal(faithful);
        assert(models(r.records@) =~= Seq::<RecordModel>::empty());
        r
    }

    /// Appends `text`, recording its correspondence to `source` where there is one.
    pub fn push_range(&mut self, text: &[u8], source: Option<Span>)
        requires
            old(self).wf(),
            source matches Some(s) ==> s.start <= s.end <= old(self).source@.len() && text@
                == old(self).source@.subrange(s.start as int, s.end as int),
        ensures
            final(self).wf(),
            final(self).source@ == old(self).source@,
            final(self).pieces@ == old(self).pieces@.push(Piece { text: text@, source }),
    {
        let ghost p = Piece { text: text@, source };
        let ghost before = self.pieces@;
        let start = self.output.len();
        let mut i: usize = 0;
        while i < text.len()
            invariant
                i <= text@.len(),
                self.output@ == old(self).output@ + text@.subrange(0, i as int),
                self.records@ == old(self).records@,
                self.pieces@ == before,
                self.source@ == old(self).source@,
                start == old(self).output@.len(),
            decreases text@.len() - i,
        {
            self.output.push(text[i]);
            i += 1;
            assert(self.output@ =~= old(self).output@ + text@.subrange(0, i as int));
        }
        assert(text@.subrange(0, text@.len() as int) =~= text@);
        let end = self.output.len();
        self.pieces = Ghost(before.push(p));
        assert(self.pieces@.drop_last() =~= before);
        reveal(faithful);
        assert forall|j: int|
            0 <= j < self.pieces@.len() && (#[trigger] self.pieces@[j]).source is Some implies {
            let s = self.pieces@[j].source->Some_0;
            &&& s.start <= s.end <= self.source@.len()
            &&& self.pieces@[j].text == self.source@.subrange(s.start as int, s.end as int)
        } by {
            if j < before.len() {
                assert(self.pieces@[j] == before[j]);
            }
        }
        match source {
            Some(s) => {
                let c = Correspondence { output: Span { start, end }, source: s };
                self.records.push(c);
                assert(models(self.records@) =~= models(old(self).records@).push(c.model()));
            },
            None => {},
        }
    }

    /// Appends synthesized text.
    pub fn push_literal(&mut self, text: &str)
        requires
            old(self).wf(),
        ensures
            final(self).wf(),
            final(self).source@ == old(self).source@,
            final(self).pieces@ == old(self).pieces@.push(lit(text)),
    {
        self.push_range(text.as_bytes(), None);
    }
}

} // verus!
