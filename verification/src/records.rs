//! The record parser: splits one CSV line into fields and strips one
//! layer of surrounding double quotes from each field.
//!
//! Splitting is on commas only; quote stripping is independent per field
//! (leading quote removed if present; trailing quote — or trailing quote
//! immediately followed by a line feed — removed if present). Embedded
//! delimiters and doubled quotes are passed through unmodified, and no
//! input is ever rejected.

use vstd::prelude::*;

verus! {

pub const COMMA: u8 = 44;
pub const QUOTE: u8 = 34;
pub const LINE_FEED: u8 = 10;

/// Parts of `s` split on a separator byte; always at least one part.
pub open spec fn split_on(s: Seq<u8>, sep: u8) -> Seq<Seq<u8>>
    decreases s.len(),
{
    if s.len() == 0 {
        seq![Seq::<u8>::empty()]
    } else if s.last() == sep {
        split_on(s.drop_last(), sep).push(Seq::<u8>::empty())
    } else {
        let r = split_on(s.drop_last(), sep);
        r.update(r.len() - 1, r.last().push(s.last()))
    }
}

pub proof fn lemma_split_on_len(s: Seq<u8>, sep: u8)
    ensures
        split_on(s, sep).len() >= 1,
    decreases s.len(),
{
    if s.len() > 0 {
        lemma_split_on_len(s.drop_last(), sep);
    }
}

/// Fields of `s` split on commas.
pub open spec fn split_commas(s: Seq<u8>) -> Seq<Seq<u8>> {
    split_on(s, COMMA)
}

pub proof fn lemma_split_commas_len(s: Seq<u8>)
    ensures
        split_commas(s).len() >= 1,
{
    lemma_split_on_len(s, COMMA);
}

/// One layer of surrounding quotes removed: a leading quote if present,
/// then a trailing quote, or a trailing quote followed by a line feed.
pub open spec fn strip_quotes_spec(f: Seq<u8>) -> Seq<u8> {
    let a = if f.len() > 0 && f[0] == QUOTE {
        f.drop_first()
    } else {
        f
    };
    if a.len() > 0 && a.last() == QUOTE {
        a.drop_last()
    } else if a.len() > 1 && a.last() == LINE_FEED && a[a.len() - 2] == QUOTE {
        a.drop_last().drop_last()
    } else {
        a
    }
}

/// What the record parser yields for a whole line.
pub open spec fn parse_line_spec(line: Seq<u8>) -> Seq<Seq<u8>> {
    split_commas(line).map_values(|f: Seq<u8>| strip_quotes_spec(f))
}

/// The view of a vector of byte vectors: a sequence of byte sequences.
pub open spec fn deep_view(vs: Seq<Vec<u8>>) -> Seq<Seq<u8>> {
    vs.map_values(|v: Vec<u8>| v@)
}

/// Splits a line on commas, keeping empty fields.
pub fn split_line(line: &Vec<u8>) -> (fields: Vec<Vec<u8>>)
    ensures
        deep_view(fields@) == split_commas(line@),
        fields@.len() >= 1,
{
    let mut done: Vec<Vec<u8>> = Vec::new();
    let mut cur: Vec<u8> = Vec::new();
    assert(line@.take(0int) =~= Seq::<u8>::empty());
    assert(deep_view(done@).push(cur@) =~= split_commas(line@.take(0int)));
    let n = line.len();
    for i in 0..n
        invariant
            n == line@.len(),
            deep_view(done@).push(cur@) =~= split_commas(line@.take(i as int)),
    {
        let ghost prev = line@.take(i as int);
        assert(line@.take(i + 1int).drop_last() =~= prev);
        assert(line@.take(i + 1int).last() == line@[i as int]);
        if line[i] == COMMA {
            done.push(cur);
            cur = Vec::new();
            assert(deep_view(done@).push(cur@) =~= split_commas(line@.take(i + 1int)));
        } else {
            let ghost r = split_commas(prev);
            cur.push(line[i]);
            assert(deep_view(done@).push(cur@) =~= r.update(r.len() - 1, r.last().push(line@[i as int])));
        }
    }
    assert(line@.take(n as int) =~= line@);
    done.push(cur);
    assert(deep_view(done@) =~= split_commas(line@));
    done
}

/// Strips one layer of surrounding quotes from a single field.
pub fn strip_quotes(f: &Vec<u8>) -> (r: Vec<u8>)
    ensures
        r@ == strip_quotes_spec(f@),
{
    let mut start: usize = 0;
    let mut end: usize = f.len();
    if end > 0 && f[0] == QUOTE {
        start = 1;
    }
    if end > start && f[end - 1] == QUOTE {
        end = end - 1;
    } else if end > start + 1 && f[end - 1] == LINE_FEED && f[end - 2] == QUOTE {
        end = end - 2;
    }
    let mut r: Vec<u8> = Vec::new();
    assert(r@ =~= f@.subrange(start as int, start as int));
    for i in start..end
        invariant
            start <= i <= end <= f@.len(),
            r@ =~= f@.subrange(start as int, i as int),
    {
        r.push(f[i]);
        assert(r@ =~= f@.subrange(start as int, i + 1int));
    }
    assert(r@ =~= strip_quotes_spec(f@));
    r
}

/// The record parser: fields of one line, quotes stripped.
pub fn parse_csv_line(line: &Vec<u8>) -> (fields: Vec<Vec<u8>>)
    ensures
        deep_view(fields@) == parse_line_spec(line@),
        fields@.len() >= 1,
{
    let raw = split_line(line);
    let mut out: Vec<Vec<u8>> = Vec::new();
    let n = raw.len();
    for i in 0..n
        invariant
            n == raw@.len(),
            deep_view(raw@) == split_commas(line@),
            out@.len() == i,
            forall|j: int| 0 <= j < i ==> #[trigger] out@[j]@ == strip_quotes_spec(raw@[j]@),
    {
        let s = strip_quotes(&raw[i]);
        out.push(s);
    }
    assert(forall|j: int|
        0 <= j < n ==> #[trigger] split_commas(line@)[j] == raw@[j]@);
    assert(deep_view(out@) =~= parse_line_spec(line@));
    out
}

/// A field wrapped in one layer of double quotes.
pub open spec fn quoted(f: Seq<u8>) -> Seq<u8> {
    seq![QUOTE] + f + seq![QUOTE]
}

/// Fields wrapped in quotes and joined with commas.
pub open spec fn join_quoted(fields: Seq<Seq<u8>>) -> Seq<u8>
    decreases fields.len(),
{
    if fields.len() == 0 {
        Seq::<u8>::empty()
    } else if fields.len() == 1 {
        quoted(fields[0])
    } else {
        join_quoted(fields.drop_last()) + seq![COMMA] + quoted(fields.last())
    }
}

proof fn lemma_split_no_comma(s: Seq<u8>)
    requires
        !s.contains(COMMA),
    ensures
        split_commas(s) =~= seq![s],
    decreases s.len(),
{
    if s.len() > 0 {
        assert(s.last() != COMMA) by {
            if s.last() == COMMA {
                assert(s[s.len() - 1] == COMMA);
            }
        }
        assert(!s.drop_last().contains(COMMA)) by {
            if s.drop_last().contains(COMMA) {
                let j = choose|j: int| 0 <= j < s.drop_last().len() && s.drop_last()[j] == COMMA;
                assert(s[j] == COMMA);
            }
        }
        lemma_split_no_comma(s.drop_last());
        assert(s.drop_last().push(s.last()) =~= s);
        assert(split_commas(s) =~= seq![s.drop_last().push(s.last())]);
    } else {
        assert(s =~= Seq::<u8>::empty());
    }
}

proof fn lemma_quoted_no_comma(f: Seq<u8>)
    requires
        !f.contains(COMMA),
    ensures
        !quoted(f).contains(COMMA),
{
    let q = quoted(f);
    assert forall|i: int| 0 <= i < q.len() implies q[i] != COMMA by {
        if 1 <= i < q.len() - 1 {
            assert(q[i] == f[i - 1]);
            if f[i - 1] == COMMA {
                assert(f.contains(COMMA));
            }
        }
    }
    if q.contains(COMMA) {
        let j = choose|j: int| 0 <= j < q.len() && q[j] == COMMA;
    }
}

proof fn lemma_strip_quoted(f: Seq<u8>)
    ensures
        strip_quotes_spec(quoted(f)) =~= f,
{
    let q = quoted(f);
    assert(q[0] == QUOTE);
    assert(q.drop_first() =~= f + seq![QUOTE]);
    assert((f + seq![QUOTE]).last() == QUOTE);
    assert((f + seq![QUOTE]).drop_last() =~= f);
}

proof fn lemma_split_after_comma(a: Seq<u8>, b: Seq<u8>)
    ensures
        split_commas(a + seq![COMMA] + b) =~= split_commas(a) + split_commas(b),
    decreases b.len(),
{
    lemma_split_commas_len(a);
    lemma_split_commas_len(b);
    let s = a + seq![COMMA] + b;
    if b.len() == 0 {
        assert(s =~= a + seq![COMMA]);
        assert((a + seq![COMMA]).last() == COMMA);
        assert((a + seq![COMMA]).drop_last() =~= a);
        assert(split_commas(b) =~= seq![Seq::<u8>::empty()]);
    } else {
        lemma_split_after_comma(a, b.drop_last());
        lemma_split_commas_len(b.drop_last());
        assert(s.drop_last() =~= a + seq![COMMA] + b.drop_last());
        assert(s.last() == b.last());
        if b.last() == COMMA {
            assert(split_commas(s) =~= split_commas(a) + split_commas(b));
        } else {
            let r = split_commas(a + seq![COMMA] + b.drop_last());
            let rb = split_commas(b.drop_last());
            assert(r =~= split_commas(a) + rb);
            assert(r.last() == rb.last());
            assert(split_commas(s) =~= r.update(r.len() - 1, r.last().push(b.last())));
            assert(r.update(r.len() - 1, r.last().push(b.last())) =~= split_commas(a)
                + rb.update(rb.len() - 1, rb.last().push(b.last())));
        }
    }
}

/// Round trip: parsing a line built by wrapping each field in quotes and
/// joining with commas recovers the original fields, for any fields that
/// contain no comma.
pub proof fn lemma_parse_round_trip(fields: Seq<Seq<u8>>)
    requires
        fields.len() >= 1,
        forall|i: int| 0 <= i < fields.len() ==> !(#[trigger] fields[i]).contains(COMMA),
    ensures
        parse_line_spec(join_quoted(fields)) =~= fields,
    decreases fields.len(),
{
    if fields.len() == 1 {
        lemma_quoted_no_comma(fields[0]);
        lemma_split_no_comma(quoted(fields[0]));
        lemma_strip_quoted(fields[0]);
        assert(split_commas(join_quoted(fields)) =~= seq![quoted(fields[0])]);
        assert(parse_line_spec(join_quoted(fields))[0] == strip_quotes_spec(quoted(fields[0])));
        assert(parse_line_spec(join_quoted(fields)) =~= fields);
    } else {
        let fd = fields.drop_last();
        lemma_parse_round_trip(fd);
        lemma_split_after_comma(join_quoted(fd), quoted(fields.last()));
        lemma_quoted_no_comma(fields.last());
        lemma_split_no_comma(quoted(fields.last()));
        lemma_strip_quoted(fields.last());
        lemma_split_commas_len(join_quoted(fd));
        let sd = split_commas(join_quoted(fd));
        assert(split_commas(join_quoted(fields)) =~= sd + seq![quoted(fields.last())]);
        assert forall|i: int| 0 <= i < fields.len() implies parse_line_spec(join_quoted(fields))[i]
            == fields[i] by {
            if i < sd.len() {
                assert(split_commas(join_quoted(fields))[i] == sd[i]);
                assert(parse_line_spec(join_quoted(fd))[i] == strip_quotes_spec(sd[i]));
                assert(parse_line_spec(join_quoted(fd))[i] == fd[i]);
            } else {
                assert(split_commas(join_quoted(fields))[i] == quoted(fields.last()));
            }
        }
        assert(parse_line_spec(join_quoted(fields)).len() == fields.len());
        assert(parse_line_spec(join_quoted(fields)) =~= fields);
    }
}

} // verus!
