//! CSV rendering of messages for LLM context input: one semicolon-delimited
//! row per message, and the size-bounded chunker that keeps each chunk under
//! the configured character ceiling.

use vstd::prelude::*;
use crate::domain::{Message, MessageView};
use crate::textutil::{chars_to_string, spec_dec_i64, str_chars};
use crate::timefmt::{date_label, spec_date_label};

verus! {

#[verifier::external_type_specification]
#[verifier::external_body]
pub struct ExCsvError(csv::Error);

/// What the csv crate produces for one semicolon-delimited record of three
/// fields: quoting per CSV rules, terminated by a newline. The encoding
/// depends on the fields alone.
pub uninterp spec fn csv_row_of(date: Seq<char>, user: Seq<char>, text: Seq<char>) -> Seq<char>;

/// Relies on the csv crate's `WriterBuilder` with delimiter `;` and
/// `write_record`, which always ends the record with the `\n` terminator.
/// The call cannot fail: exactly one record of three fields is written, so
/// no length mismatch arises; the underlying writer is a `Vec<u8>`, whose
/// writes never error; and the output of UTF-8 fields with ASCII delimiter,
/// quote and terminator is valid UTF-8.
#[verifier::external_body]
fn csv_encode_row(date: &str, user: &str, text: &str) -> (r: Result<String, csv::Error>)
    ensures
        r is Ok,
        r matches Ok(s) ==> s@ == csv_row_of(date@, user@, text@),
        r matches Ok(s) ==> s@.len() > 0 && s@.last() == '\n',
{
    let mut wtr = csv::WriterBuilder::new()
        .delimiter(b';')
        .has_headers(false)
        .from_writer(Vec::new());
    wtr.write_record([date, user, text])?;
    wtr.flush()?;
    let bytes = wtr.into_inner().map_err(|e| {
        csv::Error::from(std::io::Error::new(std::io::ErrorKind::Other, e.to_string()))
    })?;
    String::from_utf8(bytes).map_err(|e| {
        csv::Error::from(std::io::Error::new(std::io::ErrorKind::InvalidData, e.to_string()))
    })
}

/// Message text as it enters a CSV row: newlines become spaces, carriage
/// returns disappear.
pub open spec fn spec_clean_text(s: Seq<char>) -> Seq<char>
    decreases s.len(),
{
    if s.len() == 0 {
        Seq::<char>::empty()
    } else {
        let front = spec_clean_text(s.drop_last());
        if s.last() == '\r' {
            front
        } else if s.last() == '\n' {
            front.push(' ')
        } else {
            front.push(s.last())
        }
    }
}

fn clean_text(s: &str) -> (r: String)
    ensures
        r@ == spec_clean_text(s@),
{
    let chars = str_chars(s);
    let n = chars.len();
    let mut out: Vec<char> = Vec::new();
    let mut i: usize = 0;
    proof {
        assert(s@.take(0) =~= Seq::<char>::empty());
    }
    while i < n
        invariant
            i <= n,
            n == s@.len(),
            chars@ == s@,
            out@ == spec_clean_text(s@.take(i as int)),
        decreases n - i,
    {
        let c = chars[i];
        proof {
            assert(s@.take(i + 1).drop_last() =~= s@.take(i as int));
            assert(s@.take(i + 1).last() == s@[i as int]);
        }
        if c == '\r' {
        } else if c == '\n' {
            out.push(' ');
        } else {
            out.push(c);
        }
        i = i + 1;
    }
    proof {
        assert(s@.take(n as int) =~= s@);
    }
    chars_to_string(&out)
}

/// The user column: the sender id in decimal, or `unknown`.
pub open spec fn spec_user_label(from_user_id: Option<int>) -> Seq<char> {
    match from_user_id {
        Option::Some(u) => spec_dec_i64(u),
        Option::None => "unknown"@,
    }
}

/// The CSV row of one message.
pub open spec fn spec_message_row(m: MessageView) -> Seq<char> {
    csv_row_of(spec_date_label(m.date), spec_user_label(m.from_user_id), spec_clean_text(m.text))
}

/// Renders the CSV row of one message. Rendering is total: the result is
/// always `Ok`.
pub fn format_message_row(msg: &Message) -> (r: Result<String, csv::Error>)
    ensures
        r is Ok,
        r matches Ok(s) ==> s@ == spec_message_row(msg@),
        r matches Ok(s) ==> s@.len() > 0,
{
    let date_str = date_label(msg.date);
    let user_str: String = match msg.from_user_id {
        Option::Some(u) => crate::textutil::fmt_i64(u),
        Option::None => {
            let mut s = String::new();
            let unk = "unknown";
            let r = s.concat(unk);
            proof {
                assert(r@ =~= "unknown"@);
            }
            r
        },
    };
    let text = clean_text(msg.text.as_str());
    csv_encode_row(date_str.as_str(), user_str.as_str(), text.as_str())
}

/// The chunk header row.
pub open spec fn spec_header() -> Seq<char> {
    "Date;User;Message\n"@
}

/// The concatenated rows of a message run.
pub open spec fn spec_rows_concat(ms: Seq<MessageView>) -> Seq<char>
    decreases ms.len(),
{
    if ms.len() == 0 {
        Seq::<char>::empty()
    } else {
        spec_rows_concat(ms.drop_last()) + spec_message_row(ms.last())
    }
}

/// A partition of the messages into consecutive non-empty runs whose chunks
/// are header-plus-rows, each under the ceiling unless it holds a single
/// oversized row, and split exactly where adding the next row would
/// overflow.
pub open spec fn chunk_partition_ok(
    ms: Seq<MessageView>,
    chunks: Seq<Seq<char>>,
    max: int,
    cuts: Seq<int>,
) -> bool {
    &&& cuts.len() == chunks.len() + 1
    &&& cuts[0] == 0
    &&& cuts[cuts.len() - 1] == ms.len()
    &&& forall|k: int| 0 <= k < chunks.len() ==> #[trigger] cuts[k] < cuts[k + 1] <= ms.len()
    &&& forall|k: int|
        0 <= k < chunks.len() ==> #[trigger] chunks[k] == spec_header() + spec_rows_concat(
            ms.subrange(cuts[k], cuts[k + 1]),
        )
    &&& forall|k: int|
        0 <= k < chunks.len() ==> ((#[trigger] chunks[k]).len() <= max || cuts[k + 1] == cuts[k]
            + 1)
    &&& forall|k: int|
        0 <= k && k + 1 < chunks.len() ==> (#[trigger] chunks[k]).len() + spec_message_row(
            ms[cuts[k + 1]],
        ).len() > max
}

/// What the chunker returns: nothing for no messages, else a partition as
/// described by [`chunk_partition_ok`].
pub open spec fn chunked_post(ms: Seq<MessageView>, chunks: Seq<Seq<char>>, max: int) -> bool {
    if ms.len() == 0 {
        chunks.len() == 0
    } else {
        exists|cuts: Seq<int>| #[trigger] chunk_partition_ok(ms, chunks, max, cuts)
    }
}

/// Renders messages as one CSV text: the header row, then one row per
/// message in order. Rendering is total: the result is always `Ok`.
pub fn messages_to_csv(messages: &Vec<Message>) -> (r: Result<String, csv::Error>)
    ensures
        r is Ok,
        r matches Ok(s) ==> s@ == csv_row_of("Date"@, "User"@, "Message"@) + spec_rows_concat(
            messages@.map_values(|m: Message| m@),
        ),
{
    let ghost msv = messages@.map_values(|m: Message| m@);
    let header = match csv_encode_row("Date", "User", "Message") {
        Ok(h) => h,
        Err(e) => {
            return Err(e);
        },
    };
    let mut out = header;
    let n = messages.len();
    let mut i: usize = 0;
    proof {
        assert(msv.take(0) =~= Seq::<MessageView>::empty());
        assert(out@ =~= csv_row_of("Date"@, "User"@, "Message"@) + spec_rows_concat(msv.take(0)));
    }
    while i < n
        invariant
            i <= n,
            n == messages@.len(),
            msv == messages@.map_values(|m: Message| m@),
            out@ == csv_row_of("Date"@, "User"@, "Message"@) + spec_rows_concat(
                msv.take(i as int),
            ),
        decreases n - i,
    {
        let row = match format_message_row(&messages[i]) {
            Ok(s) => s,
            Err(e) => {
                return Err(e);
            },
        };
        out.append(row.as_str());
        proof {
            assert(msv.take(i + 1).drop_last() =~= msv.take(i as int));
            assert(msv.take(i + 1).last() == msv[i as int]);
            assert(out@ =~= csv_row_of("Date"@, "User"@, "Message"@) + spec_rows_concat(
                msv.take(i + 1),
            ));
        }
        i = i + 1;
    }
    proof {
        assert(msv.take(n as int) =~= msv);
    }
    Ok(out)
}

fn sat_add_chars(a: usize, b: usize) -> (r: usize)
    ensures
        r as int == vstd::math::min(a as int + b as int, usize::MAX as int),
{
    if a <= usize::MAX - b {
        a + b
    } else {
        usize::MAX
    }
}

/// Renders messages as CSV chunks, each holding the header and a run of
/// rows, and each at most `max_chunk_size` characters unless a single row
/// alone exceeds the ceiling (such a row is emitted as one chunk, never
/// split). Chunking is total: the result is always `Ok`.
#[verifier::rlimit(60)]
pub fn messages_to_csv_chunked(messages: &Vec<Message>, max_chunk_size: usize) -> (r: Result<
    Vec<String>,
    csv::Error,
>)
    ensures
        r is Ok,
        r matches Ok(chunks) ==> chunked_post(
            messages@.map_values(|m: Message| m@),
            chunks@.map_values(|s: String| s@),
            max_chunk_size as int,
        ),
{
    let ghost msv = messages@.map_values(|m: Message| m@);
    let n = messages.len();
    if n == 0 {
        let empty: Vec<String> = Vec::new();
        return Ok(empty);
    }
    let header = "Date;User;Message\n";
    let header_chars: usize = header.unicode_len();
    let mut chunks: Vec<String> = Vec::new();
    let ghost mut cuts: Seq<int> = seq![0int];
    let mut current = String::new();
    current.append(header);
    let mut cur_chars: usize = header_chars;
    let mut i: usize = 0;
    proof {
        assert(current@ =~= spec_header() + spec_rows_concat(msv.subrange(0, 0)));
    }
    while i < n
        invariant
            i <= n,
            n == messages@.len(),
            n > 0,
            msv == messages@.map_values(|m: Message| m@),
            header@ == spec_header(),
            header_chars == spec_header().len(),
            cuts.len() == chunks@.len() + 1,
            cuts[0] == 0,
            i == 0 ==> cuts[cuts.len() - 1] == 0,
            i > 0 ==> 0 <= cuts[cuts.len() - 1] < i as int,
            forall|k: int| 0 <= k < chunks@.len() ==> #[trigger] cuts[k] < cuts[k + 1] < n,
            forall|k: int|
                0 <= k < chunks@.len() ==> (#[trigger] chunks@[k])@ == spec_header()
                    + spec_rows_concat(msv.subrange(cuts[k], cuts[k + 1])),
            forall|k: int|
                0 <= k < chunks@.len() ==> ((#[trigger] chunks@[k])@.len()
                    <= max_chunk_size as int || cuts[k + 1] == cuts[k] + 1),
            forall|k: int|
                0 <= k < chunks@.len() ==> (#[trigger] chunks@[k])@.len() + spec_message_row(
                    msv[cuts[k + 1]],
                ).len() > max_chunk_size as int,
            current@ == spec_header() + spec_rows_concat(
                msv.subrange(cuts[cuts.len() - 1], i as int),
            ),
            cur_chars as int == vstd::math::min(current@.len() as int, usize::MAX as int),
            i as int > cuts[cuts.len() - 1] ==> current@.len() > spec_header().len(),
            current@.len() > max_chunk_size as int ==> i as int <= cuts[cuts.len() - 1] + 1,
        decreases n - i,
    {
        let row = match format_message_row(&messages[i]) {
            Ok(s) => s,
            Err(e) => {
                return Err(e);
            },
        };
        let row_chars: usize = row.as_str().unicode_len();
        proof {
            assert(row@ == spec_message_row(msv[i as int]));
            assert(row@.len() > 0);
        }
        let exceeds = cur_chars > max_chunk_size || row_chars > max_chunk_size - cur_chars;
        proof {
            assert(exceeds == (current@.len() + row@.len() > max_chunk_size as int));
        }
        let ghost pre_len = current@.len();
        let ghost pre_start = cuts[cuts.len() - 1];
        let split_now = exceeds && cur_chars > header_chars;
        if split_now {
            let mut fresh = String::new();
            fresh.append(header);
            let done = current;
            current = fresh;
            chunks.push(done);
            proof {
                cuts = cuts.push(i as int);
                let dl = chunks@.len() - 1;
                assert(chunks@[dl]@ == spec_header() + spec_rows_concat(
                    msv.subrange(cuts[dl], cuts[dl + 1]),
                ));
                assert(msv.subrange(i as int, i as int).len() == 0);
                assert(spec_rows_concat(msv.subrange(i as int, i as int)) =~= Seq::<
                    char,
                >::empty());
                assert(current@ =~= spec_header() + spec_rows_concat(
                    msv.subrange(i as int, i as int),
                ));
            }
            cur_chars = header_chars;
        }
        current.append(row.as_str());
        cur_chars = sat_add_chars(cur_chars, row_chars);
        proof {
            let start = cuts[cuts.len() - 1];
            assert(msv.subrange(start, i + 1).drop_last() =~= msv.subrange(start, i as int));
            assert(msv.subrange(start, i + 1).last() == msv[i as int]);
            assert(current@ =~= spec_header() + spec_rows_concat(msv.subrange(start, i + 1)));
            if current@.len() > max_chunk_size as int {
                if split_now {
                    assert(start == i as int);
                } else {
                    assert(pre_len + row@.len() > max_chunk_size as int);
                    assert(exceeds);
                    assert(cur_chars as int >= 0);
                    assert(pre_start == start);
                    if pre_start < i as int {
                        assert(pre_len > spec_header().len());
                        reveal_strlit("Date;User;Message\n");
                        assert(spec_header().len() == 18);
                        assert(false);
                    }
                }
            }
        }
        i = i + 1;
    }
    chunks.push(current);
    proof {
        cuts = cuts.push(n as int);
        let dl = chunks@.len() - 1;
        assert(chunks@[dl]@ == spec_header() + spec_rows_concat(
            msv.subrange(cuts[dl], cuts[dl + 1]),
        ));
        assert(chunk_partition_ok(
            msv,
            chunks@.map_values(|s: String| s@),
            max_chunk_size as int,
            cuts,
        ));
    }
    Ok(chunks)
}

} // verus!
