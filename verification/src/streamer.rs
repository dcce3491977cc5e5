//! Progressive delivery of large text payloads to the viewer surface.
//!
//! Content above the chunk size is split into an ordered run of byte
//! chunks whose boundaries are pulled back to the nearest character
//! boundary, so that every chunk is valid text on its own and the
//! receiver reconstructs the exact original by concatenating them in
//! order.  Admission is gated by the memory governor, and content above
//! the display ceiling is rejected outright.

use crate::errors::CoreError;
use crate::governor::{spec_admissible, spec_cleanup, MemoryMonitor};
use crate::MAX_FILE_SIZE;
use vstd::prelude::*;
use vstd::string::StringSliceAdditionalSpecFns;
use vstd::utf8::{
    encode_utf8, is_char_boundary, length_of_first_scalar, pop_first_scalar, valid_utf8,
};

verus! {

/// Bytes per chunk when streaming content to the viewer.
pub const CHUNK_SIZE: usize = 500 * 1024;

/// One notification payload handed to the viewer surface.
pub struct Payload {
    pub content: String,
    pub file_path: String,
    pub theme: Option<String>,
}

/// How a piece of content reaches the viewer: either whole, in a single
/// "set" notification, or as a "clear" notification followed by one
/// "append" notification per element, in list order.
pub enum DeliveryPlan {
    Whole(Payload),
    Chunked(Vec<Payload>),
}

/// The cut that ends the chunk starting at the front of `bytes`: the
/// nearest character boundary at or below `limit`, looking back at most
/// three bytes (a UTF-8 scalar occupies at most four); if none of those
/// four positions is a boundary, or stepping back would empty the
/// chunk, the cut stays at `limit`.
pub open spec fn spec_cut(bytes: Seq<u8>, limit: int) -> int {
    if is_char_boundary(bytes, limit) {
        limit
    } else if limit - 1 >= 1 && is_char_boundary(bytes, limit - 1) {
        limit - 1
    } else if limit - 2 >= 1 && is_char_boundary(bytes, limit - 2) {
        limit - 2
    } else if limit - 3 >= 1 && is_char_boundary(bytes, limit - 3) {
        limit - 3
    } else {
        limit
    }
}

/// The chunks a byte string is streamed as: full cuts of at most `size`
/// bytes while more than `size` bytes remain, then one final chunk with
/// the remainder.
pub open spec fn chunk_plan(bytes: Seq<u8>, size: int) -> Seq<Seq<u8>>
    recommends
        1 <= size,
    decreases bytes.len(),
{
    if bytes.len() <= size {
        if bytes.len() == 0 {
            Seq::empty()
        } else {
            seq![bytes]
        }
    } else {
        let cut = spec_cut(bytes, size);
        if 1 <= cut <= size < bytes.len() {
            seq![bytes.subrange(0, cut)] + chunk_plan(
                bytes.subrange(cut, bytes.len() as int),
                size,
            )
        } else {
            seq![bytes]
        }
    }
}

/// In valid UTF-8 a character boundary lies within three positions at
/// or below any index: scalars are at most four bytes long.
pub proof fn lemma_boundary_within_3(bytes: Seq<u8>, i: int)
    requires
        valid_utf8(bytes),
        0 <= i <= bytes.len(),
    ensures
        is_char_boundary(bytes, i) || is_char_boundary(bytes, i - 1) || is_char_boundary(
            bytes,
            i - 2,
        ) || is_char_boundary(bytes, i - 3),
    decreases bytes.len(),
{
    if i == 0 {
        assert(is_char_boundary(bytes, 0));
    } else {
        let first_len = length_of_first_scalar(bytes);
        assert(1 <= first_len <= 4);
        assert(first_len <= bytes.len());
        let rest = pop_first_scalar(bytes);
        if i < first_len {
            assert(is_char_boundary(bytes, 0));
        } else if i == first_len {
            assert(is_char_boundary(rest, 0));
            assert(is_char_boundary(bytes, i));
        } else {
            lemma_boundary_within_3(rest, i - first_len);
            if is_char_boundary(rest, i - first_len) {
                assert(is_char_boundary(bytes, i));
            } else if is_char_boundary(rest, i - first_len - 1) {
                assert(is_char_boundary(bytes, i - 1));
            } else if is_char_boundary(rest, i - first_len - 2) {
                assert(is_char_boundary(bytes, i - 2));
            } else {
                assert(is_char_boundary(rest, i - first_len - 3));
                assert(is_char_boundary(bytes, i - 3));
            }
        }
    }
}

/// For valid UTF-8 and a limit of at least four, the cut always lands
/// on a character boundary, strictly inside the first `limit` bytes but
/// at most three short of the limit.
pub proof fn lemma_cut_is_boundary(bytes: Seq<u8>, limit: int)
    requires
        valid_utf8(bytes),
        4 <= limit <= bytes.len(),
    ensures
        is_char_boundary(bytes, spec_cut(bytes, limit)),
        limit - 3 <= spec_cut(bytes, limit) <= limit,
        1 <= spec_cut(bytes, limit),
{
    lemma_boundary_within_3(bytes, limit);
}

/// Flattening a one-chunk plan gives that chunk back.
proof fn lemma_flatten_singleton(bytes: Seq<u8>)
    ensures
        seq![bytes].flatten() =~= bytes,
{
    assert(seq![bytes].drop_first() =~= Seq::<Seq<u8>>::empty());
    assert(Seq::<Seq<u8>>::empty().flatten() =~= Seq::<u8>::empty());
}

/// Concatenating the chunks of a plan, in order, rebuilds the original
/// byte string exactly.
pub proof fn lemma_chunks_concat(bytes: Seq<u8>, size: int)
    requires
        1 <= size,
    ensures
        chunk_plan(bytes, size).flatten() =~= bytes,
    decreases bytes.len(),
{
    if bytes.len() <= size {
        if bytes.len() == 0 {
        } else {
            lemma_flatten_singleton(bytes);
        }
    } else {
        let cut = spec_cut(bytes, size);
        if 1 <= cut <= size < bytes.len() {
            let head = bytes.subrange(0, cut);
            let tail = bytes.subrange(cut, bytes.len() as int);
            lemma_chunks_concat(tail, size);
            assert((seq![head] + chunk_plan(tail, size)).drop_first() =~= chunk_plan(tail, size));
            assert(chunk_plan(bytes, size).flatten() =~= head + chunk_plan(tail, size).flatten());
        } else {
            lemma_flatten_singleton(bytes);
        }
    }
}

/// Every chunk of a plan is non-empty and no longer than the chunk
/// size, and every chunk but the last misses the chunk size by at most
/// the three bytes a boundary adjustment can take away.
pub proof fn lemma_chunk_sizes(bytes: Seq<u8>, size: int)
    requires
        4 <= size,
        valid_utf8(bytes),
    ensures
        forall|i: int|
            0 <= i < chunk_plan(bytes, size).len() ==> 1 <= (#[trigger] chunk_plan(bytes, size)[i]).len()
                <= size,
        forall|i: int|
            0 <= i < chunk_plan(bytes, size).len() - 1 ==> size - 3 <= (#[trigger] chunk_plan(
                bytes,
                size,
            )[i]).len(),
    decreases bytes.len(),
{
    if bytes.len() <= size {
    } else {
        let cut = spec_cut(bytes, size);
        lemma_cut_is_boundary(bytes, size);
        let tail = bytes.subrange(cut, bytes.len() as int);
        vstd::utf8::valid_utf8_split(bytes, cut);
        lemma_chunk_sizes(tail, size);
        let plan = chunk_plan(bytes, size);
        assert forall|i: int| 0 <= i < plan.len() implies 1 <= (#[trigger] plan[i]).len()
            <= size by {
            if i > 0 {
                assert(plan[i] == chunk_plan(tail, size)[i - 1]);
            }
        }
        assert forall|i: int| 0 <= i < plan.len() - 1 implies size - 3 <= (#[trigger] plan[i]).len() by {
            if i > 0 {
                assert(plan[i] == chunk_plan(tail, size)[i - 1]);
            }
        }
    }
}

/// Where the chunk that starts this text ends: the exec mirror of
/// [`spec_cut`].
fn cut_point(content: &str, limit: usize) -> (cut: usize)
    requires
        4 <= limit <= content.spec_bytes().len(),
    ensures
        cut == spec_cut(content.spec_bytes(), limit as int),
{
    if content.is_char_boundary(limit) {
        limit
    } else if content.is_char_boundary(limit - 1) {
        limit - 1
    } else if content.is_char_boundary(limit - 2) {
        limit - 2
    } else if content.is_char_boundary(limit - 3) {
        limit - 3
    } else {
        limit
    }
}

/// Splits text into chunks of at most `chunk_size` bytes, cutting only
/// at character boundaries, so that concatenating the chunks in order
/// rebuilds the input exactly.
pub fn chunk_text(content: &str, chunk_size: usize) -> (chunks: Vec<String>)
    requires
        4 <= chunk_size,
        content.spec_bytes().len() <= usize::MAX,
    ensures
        chunks@.map_values(|c: String| encode_utf8(c@)) == chunk_plan(
            content.spec_bytes(),
            chunk_size as int,
        ),
{
    broadcast use vstd::utf8::encode_utf8_valid_utf8;

    let ghost whole: Seq<u8> = content.spec_bytes();
    let mut chunks: Vec<String> = Vec::new();
    let mut remaining: &str = content;
    loop
        invariant_except_break
            4 <= chunk_size,
            remaining.spec_bytes().len() <= whole.len(),
            whole.len() <= usize::MAX,
            chunk_plan(whole, chunk_size as int) == chunks@.map_values(|c: String| encode_utf8(c@))
                + chunk_plan(remaining.spec_bytes(), chunk_size as int),
        ensures
            chunk_plan(whole, chunk_size as int) == chunks@.map_values(
                |c: String| encode_utf8(c@),
            ),
        decreases remaining.spec_bytes().len(),
    {
        let len = remaining.len();
        if len <= chunk_size {
            if len > 0 {
                let last = remaining.to_owned();
                proof {
                    assert(encode_utf8(last@) == remaining.spec_bytes());
                    assert(chunk_plan(remaining.spec_bytes(), chunk_size as int) =~= seq![
                        remaining.spec_bytes(),
                    ]);
                    assert(chunks@.push(last).map_values(|c: String| encode_utf8(c@)) =~= chunks@
                        .map_values(|c: String| encode_utf8(c@)).push(remaining.spec_bytes()));
                    assert(chunks@.map_values(|c: String| encode_utf8(c@)) + seq![
                        remaining.spec_bytes(),
                    ] =~= chunks@.map_values(|c: String| encode_utf8(c@)).push(
                        remaining.spec_bytes(),
                    ));
                }
                chunks.push(last);
            } else {
                proof {
                    assert(chunk_plan(remaining.spec_bytes(), chunk_size as int) =~= Seq::<
                        Seq<u8>,
                    >::empty());
                    assert(chunks@.map_values(|c: String| encode_utf8(c@)) + Seq::<
                        Seq<u8>,
                    >::empty() =~= chunks@.map_values(|c: String| encode_utf8(c@)));
                }
            }
            break;
        }
        proof {
            assert(remaining.spec_bytes() == encode_utf8(remaining@));
            vstd::utf8::encode_utf8_valid_utf8(remaining@);
            assert(valid_utf8(remaining.spec_bytes()));
            lemma_cut_is_boundary(remaining.spec_bytes(), chunk_size as int);
        }
        let cut = cut_point(remaining, chunk_size);
        let (head, tail) = remaining.split_at(cut);
        let piece = head.to_owned();
        proof {
            let ghost rem_bytes = remaining.spec_bytes();
            assert(encode_utf8(piece@) =~= rem_bytes.subrange(0, cut as int));
            assert(tail.spec_bytes() =~= rem_bytes.subrange(cut as int, rem_bytes.len() as int));
            assert(chunk_plan(rem_bytes, chunk_size as int) == seq![
                rem_bytes.subrange(0, cut as int),
            ] + chunk_plan(tail.spec_bytes(), chunk_size as int));
            assert(chunks@.push(piece).map_values(|c: String| encode_utf8(c@)) =~= chunks@
                .map_values(|c: String| encode_utf8(c@)).push(encode_utf8(piece@)));
            assert(chunks@.map_values(|c: String| encode_utf8(c@)).push(encode_utf8(piece@))
                + chunk_plan(tail.spec_bytes(), chunk_size as int) =~= chunks@.map_values(
                |c: String| encode_utf8(c@),
            ) + chunk_plan(rem_bytes, chunk_size as int));
        }
        chunks.push(piece);
        remaining = tail;
    }
    chunks
}

/// The display surface's view of an optional theme name.
pub open spec fn theme_view(t: Option<String>) -> Option<Seq<char>> {
    match t {
        Some(name) => Some(name@),
        None => None,
    }
}

/// Copies an optional theme name.
fn clone_theme(t: &Option<String>) -> (r: Option<String>)
    ensures
        theme_view(r) == theme_view(*t),
{
    match t {
        Some(name) => Some(name.clone()),
        None => None,
    }
}

/// Plans the delivery of `content` to the viewer: the amnesty check
/// runs first,
/// content above [`MAX_FILE_SIZE`] is rejected, the governor books the
/// content's size, and anything larger than one chunk becomes a clear
/// notification followed by ordered append payloads whose concatenation
/// is the original content.
pub fn deliver(
    gov: &mut MemoryMonitor,
    now_secs: u64,
    title: String,
    content: String,
    theme: Option<String>,
) -> (r: Result<DeliveryPlan, CoreError>)
    requires
        encode_utf8(content@).len() <= usize::MAX,
    ensures
        ({
            let m1 = spec_cleanup(*old(gov), now_secs);
            let n = encode_utf8(content@).len();
            &&& n > MAX_FILE_SIZE ==> (r matches Err(e) && e is TooLarge && *final(gov) == m1)
            &&& n <= MAX_FILE_SIZE && !spec_admissible(m1, n as u64) ==> (r matches Err(e)
                && e is LimitExceeded && *final(gov) == m1)
            &&& n <= MAX_FILE_SIZE && spec_admissible(m1, n as u64) ==> {
                &&& r is Ok
                &&& *final(gov) == (MemoryMonitor {
                    total_allocated: (m1.total_allocated + n as u64) as u64,
                    ..m1
                })
                &&& n <= CHUNK_SIZE ==> (r->Ok_0 matches DeliveryPlan::Whole(p) && p.content
                    == content && p.file_path == title && p.theme == theme)
                &&& n > CHUNK_SIZE ==> (r->Ok_0 matches DeliveryPlan::Chunked(ps) && {
                    &&& ps@.map_values(|p: Payload| encode_utf8(p.content@)) == chunk_plan(
                        encode_utf8(content@),
                        CHUNK_SIZE as int,
                    )
                    &&& forall|j: int|
                        0 <= j < ps@.len() ==> (#[trigger] ps@[j]).file_path@ == title@
                            && theme_view(ps@[j].theme) == theme_view(theme)
                })
            }
        }),
{
    gov.check_and_cleanup(now_secs);
    let len = content.as_str().len();
    if (len as u64) > MAX_FILE_SIZE {
        return Err(CoreError::TooLarge);
    }
    match gov.allocate(len as u64) {
        Err(e) => {
            return Err(e);
        },
        Ok(()) => {},
    }
    if len > CHUNK_SIZE {
        let chunks = chunk_text(content.as_str(), CHUNK_SIZE);
        let mut payloads: Vec<Payload> = Vec::new();
        let mut i: usize = 0;
        while i < chunks.len()
            invariant
                payloads@.len() == i,
                i <= chunks@.len(),
                forall|j: int| 0 <= j < i ==> (#[trigger] payloads@[j]).content == chunks@[j],
                forall|j: int|
                    0 <= j < i ==> (#[trigger] payloads@[j]).file_path@ == title@ && theme_view(
                        payloads@[j].theme,
                    ) == theme_view(theme),
            decreases chunks@.len() - i,
        {
            let piece = chunks[i].clone();
            payloads.push(Payload {
                content: piece,
                file_path: title.clone(),
                theme: clone_theme(&theme),
            });
            i = i + 1;
        }
        proof {
            assert(payloads@.map_values(|p: Payload| encode_utf8(p.content@)) =~= chunks@
                .map_values(|c: String| encode_utf8(c@)));
        }
        Ok(DeliveryPlan::Chunked(payloads))
    } else {
        Ok(DeliveryPlan::Whole(Payload { content, file_path: title, theme }))
    }
}

} // verus!
