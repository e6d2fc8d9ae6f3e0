use vstd::prelude::*;

use crate::chunker::{chunks_of, lemma_chunk_count_bound, lemma_chunks_concat, lemma_part_numbers, part_number, remainder_views, upload_views};
use crate::entity::{numeric_views, string_views, EntityView, NumericAnnotation, StringAnnotation};
use crate::error::BlobError;
use crate::key::EntityKey;

verus! {

broadcast use Seq::lemma_flatten_push;

/// The value of the last annotation in `s` with key `key`, if any.
pub open spec fn last_string(s: Seq<(Seq<char>, Seq<char>)>, key: Seq<char>) -> Option<Seq<char>>
    decreases s.len(),
{
    if s.len() == 0 {
        None
    } else if s.last().0 == key {
        Some(s.last().1)
    } else {
        last_string(s.drop_last(), key)
    }
}

/// The value of the last annotation in `s` with key `key`, if any.
pub open spec fn last_number(s: Seq<(Seq<char>, u64)>, key: Seq<char>) -> Option<u64>
    decreases s.len(),
{
    if s.len() == 0 {
        None
    } else if s.last().0 == key {
        Some(s.last().1)
    } else {
        last_number(s.drop_last(), key)
    }
}

pub open spec fn string_or(v: Option<Seq<char>>, default: Seq<char>) -> Seq<char> {
    match v {
        Some(s) => s,
        None => default,
    }
}

/// The chunk count that a root entity announces: its `part-of`, or 1 when
/// the annotation is absent.
pub open spec fn announced_part_of(numbers: Seq<(Seq<char>, u64)>) -> u64 {
    match last_number(numbers, "part-of"@) {
        Some(n) => n,
        None => 1,
    }
}

/// Number of chunks to gather: `part-of`, where a count below 1 means an
/// unchunked blob.
pub open spec fn chunk_count(part_of: u64) -> nat {
    if part_of <= 1 {
        1
    } else {
        part_of as nat
    }
}

/// What reassembly reads from the root entity's annotations.
pub struct RootInfo {
    pub part_of: u64,
    pub filename: String,
    pub mime_type: String,
}

fn last_string_value(
    strings: &Vec<StringAnnotation>,
    key: &str,
    default: &str,
) -> (r: String)
    ensures
        r@ == string_or(last_string(string_views(strings@), key@), default@),
{
    let wanted = key.to_string();
    let mut r = default.to_string();
    let mut i: usize = 0;
    while i < strings.len()
        invariant
            i <= strings.len(),
            wanted@ == key@,
            r@ == string_or(last_string(string_views(strings@).take(i as int), key@), default@),
        decreases strings.len() - i,
    {
        let ghost pre = string_views(strings@).take(i as int);
        let ghost next = string_views(strings@).take(i + 1);
        assert(next.drop_last() =~= pre);
        if strings[i].key == wanted {
            r = strings[i].value.clone();
        }
        i += 1;
    }
    assert(string_views(strings@).take(i as int) =~= string_views(strings@));
    r
}

impl RootInfo {
    /// Reads the chunk count, file name and MIME type from a root entity's
    /// annotations. The last annotation with a given key wins; absent ones
    /// give `part-of` 1, file name `image` and MIME type
    /// `application/octet-stream`.
    pub fn read(strings: &Vec<StringAnnotation>, numbers: &Vec<NumericAnnotation>) -> (r: RootInfo)
        ensures
            r.part_of == announced_part_of(numeric_views(numbers@)),
            r.filename@ == string_or(last_string(string_views(strings@), "filename"@), "image"@),
            r.mime_type@ == string_or(
                last_string(string_views(strings@), "mime-type"@),
                "application/octet-stream"@,
            ),
    {
        let wanted = "part-of".to_string();
        let mut part_of: u64 = 1;
        let mut i: usize = 0;
        while i < numbers.len()
            invariant
                i <= numbers.len(),
                wanted@ == "part-of"@,
                part_of == announced_part_of(numeric_views(numbers@).take(i as int)),
            decreases numbers.len() - i,
        {
            let ghost pre = numeric_views(numbers@).take(i as int);
            let ghost next = numeric_views(numbers@).take(i + 1);
            assert(next.drop_last() =~= pre);
            if numbers[i].key == wanted {
                part_of = numbers[i].value;
            }
            i += 1;
        }
        assert(numeric_views(numbers@).take(i as int) =~= numeric_views(numbers@));
        RootInfo {
            part_of,
            filename: last_string_value(strings, "filename", "image"),
            mime_type: last_string_value(strings, "mime-type", "application/octet-stream"),
        }
    }

    /// How many chunks the blob has, the root included.
    pub fn chunk_count(&self) -> (r: u64)
        ensures
            r == chunk_count(self.part_of),
    {
        if self.part_of <= 1 {
            1
        } else {
            self.part_of
        }
    }
}

pub open spec fn fetched_views(f: Seq<Option<Vec<u8>>>) -> Seq<Option<Seq<u8>>> {
    f.map_values(
        |o: Option<Vec<u8>>|
            match o {
                Some(v) => Some(v@),
                None => None,
            },
    )
}

/// The payloads that were found, in part order. Entry `i` of `f` stands for
/// part `i + 2`.
pub open spec fn found_payloads(f: Seq<Option<Seq<u8>>>) -> Seq<Seq<u8>>
    decreases f.len(),
{
    if f.len() == 0 {
        Seq::empty()
    } else {
        match f.last() {
            Some(p) => found_payloads(f.drop_last()).push(p),
            None => found_payloads(f.drop_last()),
        }
    }
}

/// The part numbers that were not found, ascending. Entry `i` of `f` stands
/// for part `i + 2`.
pub open spec fn missing_parts(f: Seq<Option<Seq<u8>>>) -> Seq<u64>
    decreases f.len(),
{
    if f.len() == 0 {
        Seq::empty()
    } else {
        match f.last() {
            Some(_) => missing_parts(f.drop_last()),
            None => missing_parts(f.drop_last()).push((f.len() + 1) as u64),
        }
    }
}

/// The root payload followed by every payload that was found, in part order.
pub open spec fn recovered_bytes(root: Seq<u8>, f: Seq<Option<Seq<u8>>>) -> Seq<u8> {
    root + found_payloads(f).flatten()
}

fn append_bytes(dst: &mut Vec<u8>, src: &Vec<u8>)
    ensures
        final(dst)@ == old(dst)@ + src@,
{
    let mut i: usize = 0;
    while i < src.len()
        invariant
            i <= src.len(),
            dst@ == old(dst)@ + src@.take(i as int),
        decreases src.len() - i,
    {
        dst.push(src[i]);
        i += 1;
        assert(dst@ =~= old(dst)@ + src@.take(i as int));
    }
    assert(src@.take(i as int) =~= src@);
}

/// Concatenates the root payload and the payloads of parts 2, 3, ... that
/// were found (`fetched[i]` is part `i + 2`, `None` where no entity was
/// found). Succeeds exactly when no part is missing; otherwise reports the
/// bytes recovered and the missing part numbers.
pub fn assemble(root_payload: &Vec<u8>, fetched: &Vec<Option<Vec<u8>>>) -> (r: Result<
    Vec<u8>,
    BlobError,
>)
    requires
        fetched.len() + 1 <= u64::MAX,
    ensures
        missing_parts(fetched_views(fetched@)).len() == 0 ==> (r matches Ok(b) && b@
            == recovered_bytes(root_payload@, fetched_views(fetched@))),
        missing_parts(fetched_views(fetched@)).len() > 0 ==> (r matches Err(
            BlobError::IncompleteBlob { recovered, missing },
        ) && recovered@ == recovered_bytes(root_payload@, fetched_views(fetched@)) && missing@
            == missing_parts(fetched_views(fetched@))),
{
    let mut bytes: Vec<u8> = Vec::new();
    append_bytes(&mut bytes, root_payload);
    let mut missing: Vec<u64> = Vec::new();
    let mut i: usize = 0;
    while i < fetched.len()
        invariant
            i <= fetched.len(),
            fetched.len() + 1 <= u64::MAX,
            bytes@ == recovered_bytes(root_payload@, fetched_views(fetched@).take(i as int)),
            missing@ == missing_parts(fetched_views(fetched@).take(i as int)),
        decreases fetched.len() - i,
    {
        let ghost pre = fetched_views(fetched@).take(i as int);
        let ghost next = fetched_views(fetched@).take(i + 1);
        assert(next.drop_last() =~= pre);
        match &fetched[i] {
            Some(payload) => {
                assert(next.last() == Some(payload@));
                append_bytes(&mut bytes, payload);
                assert(bytes@ =~= recovered_bytes(root_payload@, next));
            },
            None => {
                missing.push(i as u64 + 2);
            },
        }
        i += 1;
    }
    assert(fetched_views(fetched@).take(i as int) =~= fetched_views(fetched@));
    if missing.len() == 0 {
        Ok(bytes)
    } else {
        Err(BlobError::IncompleteBlob { recovered: bytes, missing })
    }
}

/// A reassembled blob with the metadata that describes it.
pub struct ImageResult {
    pub id: EntityKey,
    pub image_data: Vec<u8>,
    pub filename: String,
    pub mimetype: String,
}

/// Reassembles the blob rooted at `id` from its root entity's metadata and
/// payload and the outcome of the lookups of parts 2 to `chunk_count`.
pub fn assemble_image(
    id: EntityKey,
    info: RootInfo,
    root_payload: &Vec<u8>,
    fetched: &Vec<Option<Vec<u8>>>,
) -> (r: Result<ImageResult, BlobError>)
    requires
        fetched.len() + 1 == chunk_count(info.part_of),
    ensures
        missing_parts(fetched_views(fetched@)).len() == 0 ==> (r matches Ok(img) && img.id == id
            && img.image_data@ == recovered_bytes(root_payload@, fetched_views(fetched@))
            && img.filename@ == info.filename@ && img.mimetype@ == info.mime_type@),
        missing_parts(fetched_views(fetched@)).len() > 0 ==> (r matches Err(
            BlobError::IncompleteBlob { recovered, missing },
        ) && recovered@ == recovered_bytes(root_payload@, fetched_views(fetched@)) && missing@
            == missing_parts(fetched_views(fetched@))),
{
    match assemble(root_payload, fetched) {
        Ok(image_data) => Ok(
            ImageResult { id, image_data, filename: info.filename, mimetype: info.mime_type },
        ),
        Err(e) => Err(e),
    }
}

} // verus!

verus! {

/// Lookups of parts 2, 3, ... where every entity was found except the one
/// at index `j` (none is missing when `j` is out of range).
pub open spec fn found_all_but(x: Seq<Seq<u8>>, j: int) -> Seq<Option<Seq<u8>>> {
    Seq::new(x.len(), |i: int| if i == j { None } else { Some(x[i]) })
}

proof fn lemma_found_all_but(x: Seq<Seq<u8>>, j: int)
    requires
        x.len() + 1 <= u64::MAX,
    ensures
        found_payloads(found_all_but(x, j)) == if 0 <= j < x.len() {
            x.remove(j)
        } else {
            x
        },
        missing_parts(found_all_but(x, j)) == if 0 <= j < x.len() {
            seq![(j + 2) as u64]
        } else {
            Seq::<u64>::empty()
        },
    decreases x.len(),
{
    let f = found_all_but(x, j);
    if x.len() > 0 {
        let y = x.drop_last();
        assert(f.drop_last() =~= found_all_but(y, j));
        lemma_found_all_but(y, j);
        if j == x.len() - 1 {
            assert(y =~= x.remove(j));
        } else if 0 <= j < x.len() - 1 {
            assert(y.remove(j).push(x.last()) =~= x.remove(j));
        } else {
            assert(y.push(x.last()) =~= x);
        }
    } else {
        assert(found_payloads(f) =~= x);
    }
}

/// Round trip: when every chunk entity of an upload is found again, the
/// root announces the right chunk count, nothing is reported missing, and
/// the bytes reassembled are the uploaded blob.
pub proof fn lemma_round_trip(
    blob: Seq<u8>,
    size: nat,
    root_key: Seq<char>,
    filename: Seq<char>,
    mime_type: Seq<char>,
    tags: Seq<char>,
    custom: Seq<(Seq<char>, Seq<char>)>,
)
    requires
        size > 0,
        blob.len() < u64::MAX,
    ensures
        ({
            let es = upload_views(blob, size, root_key, filename, mime_type, tags, custom);
            let fetched = es.drop_first().map_values(|e: EntityView| Some(e.data));
            &&& chunk_count(announced_part_of(es[0].numbers)) == es.len()
            &&& missing_parts(fetched).len() == 0
            &&& recovered_bytes(es[0].data, fetched) == blob
        }),
{
    let es = upload_views(blob, size, root_key, filename, mime_type, tags, custom);
    let c = chunks_of(blob, size);
    let fetched = es.drop_first().map_values(|e: EntityView| Some(e.data));
    lemma_part_numbers(blob, size, root_key, filename, mime_type, tags, custom);
    lemma_chunks_concat(blob, size);
    assert(announced_part_of(es[0].numbers) == c.len() as u64);
    let rest = c.drop_first();
    assert(fetched =~= found_all_but(rest, -1));
    lemma_found_all_but(rest, -1);
    assert(c =~= seq![c[0]] + rest);
    assert(c.flatten() == c[0] + rest.flatten());
}

/// Reassembly with chunk `k` (2 <= k <= N) lost reports exactly part `k` as
/// missing, and recovers the concatenation of every other chunk in order.
pub proof fn lemma_one_chunk_lost(
    blob: Seq<u8>,
    size: nat,
    root_key: Seq<char>,
    filename: Seq<char>,
    mime_type: Seq<char>,
    tags: Seq<char>,
    custom: Seq<(Seq<char>, Seq<char>)>,
    k: int,
)
    requires
        size > 0,
        blob.len() < u64::MAX,
        2 <= k <= chunks_of(blob, size).len(),
    ensures
        ({
            let es = upload_views(blob, size, root_key, filename, mime_type, tags, custom);
            let fetched = Seq::new(
                (es.len() - 1) as nat,
                |i: int|
                    if part_number(es[i + 1]) == k {
                        None
                    } else {
                        Some(es[i + 1].data)
                    },
            );
            &&& missing_parts(fetched) == seq![k as u64]
            &&& recovered_bytes(es[0].data, fetched) == chunks_of(blob, size).remove(
                k - 1,
            ).flatten()
        }),
{
    let es = upload_views(blob, size, root_key, filename, mime_type, tags, custom);
    let c = chunks_of(blob, size);
    let fetched = Seq::new(
        (es.len() - 1) as nat,
        |i: int|
            if part_number(es[i + 1]) == k {
                None
            } else {
                Some(es[i + 1].data)
            },
    );
    lemma_part_numbers(blob, size, root_key, filename, mime_type, tags, custom);
    let rest = c.drop_first();
    assert forall|i: int| 0 <= i < rest.len() implies part_number(#[trigger] es[i + 1]) == i + 2 by {
        assert(es[i + 1] == remainder_views(c, root_key, filename, mime_type)[i]);
    }
    assert(fetched =~= found_all_but(rest, k - 2));
    lemma_chunk_count_bound(blob, size);
    lemma_found_all_but(rest, k - 2);
    let others = c.remove(k - 1);
    assert(others =~= seq![c[0]] + rest.remove(k - 2));
    assert(others.drop_first() =~= rest.remove(k - 2));
    assert(others.flatten() == c[0] + rest.remove(k - 2).flatten());
}

} // verus!
