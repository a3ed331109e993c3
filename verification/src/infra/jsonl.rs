//! Line-delimited records: the layout of the files that file-backed queues
//! and mailboxes keep. Every record is followed by one line feed.

use vstd::prelude::*;

verus! {

/// The byte that ends a record.
pub const LINE_FEED: u8 = 10;

/// Whether `record` can stand on a line: it holds no line feed.
pub open spec fn is_line(record: Seq<u8>) -> bool {
    forall|i: int| 0 <= i < record.len() ==> record[i] != LINE_FEED
}

/// The bytes of a file that holds `records`: each record with a line feed
/// behind it.
pub open spec fn framed(records: Seq<Seq<u8>>) -> Seq<u8>
    decreases records.len(),
{
    if records.len() == 0 {
        Seq::empty()
    } else {
        records[0] + seq![LINE_FEED] + framed(records.drop_first())
    }
}

/// The index of the first line feed of `data`, or its length where it holds
/// none.
pub open spec fn first_line_feed(data: Seq<u8>) -> int
    decreases data.len(),
{
    if data.len() == 0 || data[0] == LINE_FEED {
        0
    } else {
        1 + first_line_feed(data.drop_first())
    }
}

/// The records that the bytes `data` hold: what stands before each line
/// feed, and what stands behind the last one unless that is nothing.
pub open spec fn unframed(data: Seq<u8>) -> Seq<Seq<u8>>
    decreases data.len(),
    via unframed_decreases
{
    if data.len() == 0 {
        Seq::empty()
    } else {
        let n = first_line_feed(data);
        if n >= data.len() {
            seq![data]
        } else {
            seq![data.take(n)] + unframed(data.skip(n + 1))
        }
    }
}

#[via_fn]
proof fn unframed_decreases(data: Seq<u8>) {
    lemma_first_line_feed(data);
}

/// `first_line_feed` lies within the bytes, no byte before it is a line
/// feed, and the byte at it, if any, is one.
pub proof fn lemma_first_line_feed(data: Seq<u8>)
    ensures
        0 <= first_line_feed(data) <= data.len(),
        is_line(data.take(first_line_feed(data))),
        first_line_feed(data) < data.len() ==> data[first_line_feed(data)] == LINE_FEED,
    decreases data.len(),
{
    if data.len() == 0 || data[0] == LINE_FEED {
    } else {
        let rest = data.drop_first();
        lemma_first_line_feed(rest);
        let n = first_line_feed(data);
        assert forall|i: int| 0 <= i < data.take(n).len() implies data.take(n)[i] != LINE_FEED by {
            if i > 0 {
                assert(data.take(n)[i] == rest.take(n - 1)[i - 1]);
            }
        }
    }
}

/// Where `record` holds no line feed, the first line feed of `record`, a
/// line feed and `rest` is the one behind `record`.
proof fn lemma_first_line_feed_of_framed(record: Seq<u8>, rest: Seq<u8>)
    requires
        is_line(record),
    ensures
        first_line_feed(record + seq![LINE_FEED] + rest) == record.len(),
    decreases record.len(),
{
    let data = record + seq![LINE_FEED] + rest;
    if record.len() == 0 {
        assert(data[0] == LINE_FEED);
    } else {
        assert(data[0] == record[0]);
        assert(record.drop_first() + seq![LINE_FEED] + rest =~= data.drop_first());
        assert forall|i: int| 0 <= i < record.drop_first().len() implies record.drop_first()[i]
            != LINE_FEED by {
            assert(record[i + 1] != LINE_FEED);
        }
        lemma_first_line_feed_of_framed(record.drop_first(), rest);
    }
}

/// What was framed is read back as it was: records that hold no line feed
/// come back from their file one for one and in order.
pub proof fn lemma_unframed_framed(records: Seq<Seq<u8>>)
    requires
        forall|i: int| 0 <= i < records.len() ==> is_line(#[trigger] records[i]),
    ensures
        unframed(framed(records)) == records,
    decreases records.len(),
{
    if records.len() > 0 {
        let record = records[0];
        let rest = framed(records.drop_first());
        let data = framed(records);
        assert(is_line(records[0]));
        lemma_first_line_feed_of_framed(record, rest);
        assert forall|i: int| 0 <= i < records.drop_first().len() implies is_line(
            #[trigger] records.drop_first()[i],
        ) by {
            assert(is_line(records[i + 1]));
        }
        lemma_unframed_framed(records.drop_first());
        assert(data.take(record.len() as int) =~= record);
        assert(data.skip(record.len() as int + 1) =~= rest);
        assert(seq![record] + records.drop_first() =~= records);
    }
}

/// The records of `lines` as sequences of bytes.
pub open spec fn lines_view(lines: Seq<Vec<u8>>) -> Seq<Seq<u8>> {
    lines.map_values(|line: Vec<u8>| line@)
}

/// Appends `record` and a line feed to `out`: one more line of a file.
pub fn frame_record(out: &mut Vec<u8>, record: &[u8])
    ensures
        final(out)@ == old(out)@ + record@ + seq![LINE_FEED],
{
    let mut i: usize = 0;
    while i < record.len()
        invariant
            i <= record@.len(),
            out@ == old(out)@ + record@.take(i as int),
        decreases record@.len() - i,
    {
        out.push(record[i]);
        assert(record@.take(i + 1) =~= record@.take(i as int).push(record@[i as int]));
        assert(old(out)@ + record@.take(i as int).push(record@[i as int]) =~= (old(out)@
            + record@.take(i as int)).push(record@[i as int]));
        i += 1;
    }
    assert(record@.take(i as int) =~= record@);
    out.push(LINE_FEED);
    assert(out@ =~= old(out)@ + record@ + seq![LINE_FEED]);
}

/// Splits the bytes of a file into its records.
pub fn split_records(data: &[u8]) -> (r: Vec<Vec<u8>>)
    ensures
        lines_view(r@) == unframed(data@),
{
    let mut out: Vec<Vec<u8>> = Vec::new();
    let mut current: Vec<u8> = Vec::new();
    let mut start: usize = 0;
    let mut i: usize = 0;
    proof {
        assert(data@.skip(0) =~= data@);
        assert(lines_view(out@) =~= Seq::<Seq<u8>>::empty());
        assert(Seq::<Seq<u8>>::empty() + unframed(data@) =~= unframed(data@));
    }
    while i < data.len()
        invariant
            start <= i <= data@.len(),
            current@ == data@.subrange(start as int, i as int),
            unframed(data@) == lines_view(out@) + unframed(data@.skip(start as int)),
            first_line_feed(data@.skip(start as int)) == (i - start) + first_line_feed(
                data@.skip(i as int),
            ),
        decreases data@.len() - i,
    {
        let byte = data[i];
        proof {
            assert(data@.skip(i as int)[0] == data@[i as int]);
            assert(data@.skip(i as int).drop_first() =~= data@.skip(i + 1));
        }
        if byte == LINE_FEED {
            proof {
                let tail = data@.skip(start as int);
                assert(first_line_feed(tail) == i - start);
                assert(tail.take(i - start) =~= current@);
                assert(tail.skip(i - start + 1) =~= data@.skip(i + 1));
                assert(lines_view(out@.push(current)) =~= lines_view(out@) + seq![current@]);
                assert(lines_view(out@) + (seq![current@] + unframed(data@.skip(i + 1)))
                    =~= lines_view(out@) + seq![current@] + unframed(data@.skip(i + 1)));
            }
            out.push(current);
            current = Vec::new();
            start = i + 1;
            proof {
                assert(data@.subrange(start as int, start as int) =~= Seq::<u8>::empty());
            }
        } else {
            current.push(byte);
            proof {
                assert(data@.subrange(start as int, i + 1) =~= data@.subrange(
                    start as int,
                    i as int,
                ).push(byte));
            }
        }
        i += 1;
    }
    if start < data.len() {
        proof {
            let tail = data@.skip(start as int);
            assert(data@.skip(i as int) =~= Seq::<u8>::empty());
            assert(first_line_feed(tail) == tail.len());
            assert(tail =~= current@);
            assert(lines_view(out@.push(current)) =~= lines_view(out@) + seq![current@]);
        }
        out.push(current);
    } else {
        proof {
            assert(data@.skip(start as int) =~= Seq::<u8>::empty());
            assert(lines_view(out@) + Seq::<Seq<u8>>::empty() =~= lines_view(out@));
        }
    }
    out
}

} // verus!
