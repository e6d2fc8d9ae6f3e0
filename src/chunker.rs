use vstd::prelude::*;

use crate::entity::{
    app_namespace, numeric_views, string_views, EntityDraft, EntityView, NumericAnnotation,
    StringAnnotation, APP_NAMESPACE, ENTITY_BTL,
};

verus! {

/// Largest payload written into one chunk entity.
pub const MAX_CHUNK_SIZE: usize = 100000;

/// Consecutive, non-overlapping slices of `b` of length `size`; the last one
/// may be shorter. An empty blob gives one empty slice.
pub open spec fn chunks_of(b: Seq<u8>, size: nat) -> Seq<Seq<u8>>
    decreases b.len(),
{
    if size == 0 || b.len() <= size {
        seq![b]
    } else {
        seq![b.take(size as int)] + chunks_of(b.skip(size as int), size)
    }
}

proof fn lemma_chunks_step(b: Seq<u8>, size: nat)
    requires
        size > 0,
        b.len() > size,
    ensures
        chunks_of(b, size) == seq![b.take(size as int)] + chunks_of(b.skip(size as int), size),
{
}

pub open spec fn payload_views(s: Seq<Vec<u8>>) -> Seq<Seq<u8>> {
    s.map_values(|v: Vec<u8>| v@)
}

/// Copies `b[from..to]` into a fresh vector.
pub fn copy_range(b: &Vec<u8>, from: usize, to: usize) -> (r: Vec<u8>)
    requires
        from <= to <= b.len(),
    ensures
        r@ == b@.subrange(from as int, to as int),
{
    let mut r: Vec<u8> = Vec::new();
    let mut i: usize = from;
    while i < to
        invariant
            from <= i <= to <= b.len(),
            r@ == b@.subrange(from as int, i as int),
        decreases to - i,
    {
        r.push(b[i]);
        i += 1;
        assert(r@ =~= b@.subrange(from as int, i as int));
    }
    r
}

/// Splits `blob` into the payloads of its chunk entities, in part order.
pub fn split_blob(blob: &Vec<u8>, max_chunk_size: usize) -> (r: Vec<Vec<u8>>)
    requires
        max_chunk_size >= 1,
    ensures
        payload_views(r@) == chunks_of(blob@, max_chunk_size as nat),
        r.len() >= 1,
        blob.len() == 0 ==> r.len() == 1 && r@[0]@.len() == 0,
{
    let ghost size = max_chunk_size as nat;
    let mut out: Vec<Vec<u8>> = Vec::new();
    let mut start: usize = 0;
    assert(blob@.skip(0) =~= blob@);
    while blob.len() - start > max_chunk_size
        invariant
            size == max_chunk_size as nat,
            max_chunk_size >= 1,
            start <= blob.len(),
            payload_views(out@) + chunks_of(blob@.skip(start as int), size) == chunks_of(
                blob@,
                size,
            ),
        decreases blob.len() - start,
    {
        let ghost rest = blob@.skip(start as int);
        let piece = copy_range(blob, start, start + max_chunk_size);
        let ghost before = payload_views(out@);
        assert(rest.len() > size);
        assert(rest.take(size as int) =~= piece@);
        assert(rest.skip(size as int) =~= blob@.skip(start + max_chunk_size));
        proof {
            lemma_chunks_step(rest, size);
        }
        assert(chunks_of(rest, size) == seq![piece@] + chunks_of(
            blob@.skip(start + max_chunk_size),
            size,
        ));
        out.push(piece);
        start = start + max_chunk_size;
        assert(payload_views(out@) =~= before.push(piece@));
        assert(before + chunks_of(rest, size) =~= payload_views(out@) + chunks_of(
            blob@.skip(start as int),
            size,
        ));
    }
    let ghost before = payload_views(out@);
    let last = copy_range(blob, start, blob.len());
    assert(last@ =~= blob@.skip(start as int));
    out.push(last);
    assert(payload_views(out@) =~= before + chunks_of(blob@.skip(start as int), size));
    proof {
        lemma_chunk_shape(blob@, size);
        assert(out@[0]@ == payload_views(out@)[0]);
    }
    out
}

} // verus!

verus! {

/// Concatenating the chunks of a blob in order gives the blob back.
pub proof fn lemma_chunks_concat(b: Seq<u8>, size: nat)
    requires
        size > 0,
    ensures
        chunks_of(b, size).flatten() == b,
    decreases b.len(),
{
    if b.len() <= size {
        seq![b].lemma_flatten_one_element();
    } else {
        let head = b.take(size as int);
        let tail = chunks_of(b.skip(size as int), size);
        lemma_chunks_step(b, size);
        lemma_chunks_concat(b.skip(size as int), size);
        assert((seq![head] + tail).drop_first() =~= tail);
        assert(head + b.skip(size as int) =~= b);
    }
}

/// The shape of a split: at least one chunk; every chunk but the last holds
/// exactly `size` bytes; the last holds between 1 and `size` bytes, or none
/// when the blob is empty, in which case it is the only chunk.
pub proof fn lemma_chunk_shape(b: Seq<u8>, size: nat)
    requires
        size > 0,
    ensures
        chunks_of(b, size).len() >= 1,
        forall|i: int|
            0 <= i < chunks_of(b, size).len() - 1 ==> (#[trigger] chunks_of(b, size)[i]).len()
                == size,
        chunks_of(b, size).last().len() <= size,
        b.len() > 0 ==> chunks_of(b, size).last().len() >= 1,
        b.len() == 0 ==> chunks_of(b, size) == seq![Seq::<u8>::empty()],
        b.len() > 0 ==> chunks_of(b, size).len() == (b.len() + size - 1) as int / size as int,
    decreases b.len(),
{
    if b.len() <= size {
        if b.len() == 0 {
            assert(b =~= Seq::<u8>::empty());
        } else {
            assert((b.len() + size - 1) as int / size as int == 1) by (nonlinear_arith)
                requires
                    0 < b.len() <= size,
            ;
        }
    } else {
        let rest = b.skip(size as int);
        lemma_chunks_step(b, size);
        lemma_chunk_shape(rest, size);
        let c = chunks_of(b, size);
        let t = chunks_of(rest, size);
        assert forall|i: int| 0 <= i < c.len() - 1 implies (#[trigger] c[i]).len() == size by {
            if i > 0 {
                assert(c[i] == t[i - 1]);
            }
        }
        let l = rest.len() as int;
        let s = size as int;
        assert((l + s + s - 1) / s == (l + s - 1) / s + 1) by (nonlinear_arith)
            requires
                s > 0,
                l > 0,
        {
            assert(l + s + s - 1 == (l + s - 1) + s * 1);
        }
    }
}

/// Custom annotations that are kept: both key and value are non-empty.
pub open spec fn is_complete_pair(a: (Seq<char>, Seq<char>)) -> bool {
    a.0.len() > 0 && a.1.len() > 0
}

/// The custom annotations that are persisted, in the order given.
pub open spec fn kept_custom(s: Seq<(Seq<char>, Seq<char>)>) -> Seq<(Seq<char>, Seq<char>)>
    decreases s.len(),
{
    if s.len() == 0 {
        Seq::empty()
    } else if is_complete_pair(s.last()) {
        kept_custom(s.drop_last()).push(s.last())
    } else {
        kept_custom(s.drop_last())
    }
}

/// The root chunk entity: the first payload, the upload's own annotations and
/// its part numbers.
pub open spec fn root_view(
    payload: Seq<u8>,
    part_of: u64,
    filename: Seq<char>,
    mime_type: Seq<char>,
    tags: Seq<char>,
    custom: Seq<(Seq<char>, Seq<char>)>,
) -> EntityView {
    EntityView {
        data: payload,
        btl: ENTITY_BTL,
        strings: seq![
            ("type"@, "image"@),
            ("app"@, app_namespace()),
            ("filename"@, filename),
            ("mime-type"@, mime_type),
            ("tag"@, tags),
        ] + kept_custom(custom),
        numbers: seq![("part"@, 1u64), ("part-of"@, part_of)],
    }
}

/// A non-root chunk entity: linked to the root by its key, with the reduced
/// annotation set and its part numbers.
pub open spec fn chunk_view(
    payload: Seq<u8>,
    part: u64,
    part_of: u64,
    root_key: Seq<char>,
    filename: Seq<char>,
    mime_type: Seq<char>,
) -> EntityView {
    EntityView {
        data: payload,
        btl: ENTITY_BTL,
        strings: seq![
            ("parent"@, root_key),
            ("type"@, "image_chunk"@),
            ("app"@, app_namespace()),
            ("filename"@, filename),
            ("mime-type"@, mime_type),
        ],
        numbers: seq![("part"@, part), ("part-of"@, part_of)],
    }
}

/// Keeps the custom annotations whose key and value are both non-empty.
pub fn keep_custom(custom: &Vec<StringAnnotation>) -> (r: Vec<StringAnnotation>)
    ensures
        string_views(r@) == kept_custom(string_views(custom@)),
{
    let mut r: Vec<StringAnnotation> = Vec::new();
    let mut i: usize = 0;
    while i < custom.len()
        invariant
            i <= custom.len(),
            string_views(r@) == kept_custom(string_views(custom@).take(i as int)),
        decreases custom.len() - i,
    {
        let ghost before = string_views(r@);
        let a = &custom[i];
        let ghost pre = string_views(custom@).take(i as int);
        let ghost next = string_views(custom@).take(i + 1);
        assert(next.drop_last() =~= pre);
        assert(next.last() == a@);
        if !a.key.as_str().is_empty() && !a.value.as_str().is_empty() {
            r.push(a.duplicate());
            assert(string_views(r@) =~= before.push(a@));
        }
        i += 1;
    }
    assert(string_views(custom@).take(i as int) =~= string_views(custom@));
    r
}

/// Builds the root chunk entity of an upload from its split payloads.
pub fn root_entity(
    chunks: &Vec<Vec<u8>>,
    filename: &str,
    mime_type: &str,
    tags: &str,
    custom: &Vec<StringAnnotation>,
) -> (r: EntityDraft)
    requires
        chunks.len() >= 1,
    ensures
        r@ == root_view(
            chunks@[0]@,
            chunks.len() as u64,
            filename@,
            mime_type@,
            tags@,
            string_views(custom@),
        ),
{
    let mut strings: Vec<StringAnnotation> = Vec::new();
    strings.push(StringAnnotation::new("type", "image"));
    strings.push(StringAnnotation::new("app", APP_NAMESPACE));
    strings.push(StringAnnotation::new("filename", filename));
    strings.push(StringAnnotation::new("mime-type", mime_type));
    strings.push(StringAnnotation::new("tag", tags));
    let mut kept = keep_custom(custom);
    strings.append(&mut kept);
    let mut numbers: Vec<NumericAnnotation> = Vec::new();
    numbers.push(NumericAnnotation::new("part", 1));
    numbers.push(NumericAnnotation::new("part-of", chunks.len() as u64));
    let data = chunks[0].clone();
    assert(data@ =~= chunks@[0]@);
    let r = EntityDraft {
        data,
        btl: ENTITY_BTL,
        string_annotations: strings,
        numeric_annotations: numbers,
    };
    assert(r@.strings =~= root_view(
        chunks@[0]@,
        chunks.len() as u64,
        filename@,
        mime_type@,
        tags@,
        string_views(custom@),
    ).strings);
    assert(r@.numbers =~= seq![("part"@, 1u64), ("part-of"@, chunks.len() as u64)]);
    r
}

/// Builds the non-root chunk entities of an upload, once the root entity has
/// been written under `root_key`. Entity `i` carries payload `i + 1` and part
/// number `i + 2`.
pub fn remainder_entities(
    chunks: &Vec<Vec<u8>>,
    root_key: &str,
    filename: &str,
    mime_type: &str,
) -> (r: Vec<EntityDraft>)
    requires
        chunks.len() >= 1,
    ensures
        r.len() == chunks.len() - 1,
        forall|i: int|
            0 <= i < r.len() ==> (#[trigger] r@[i])@ == chunk_view(
                chunks@[i + 1]@,
                (i + 2) as u64,
                chunks.len() as u64,
                root_key@,
                filename@,
                mime_type@,
            ),
{
    let n = chunks.len() as u64;
    let mut r: Vec<EntityDraft> = Vec::new();
    let mut k: usize = 1;
    while k < chunks.len()
        invariant
            1 <= k <= chunks.len(),
            n == chunks.len() as u64,
            r.len() == k - 1,
            forall|i: int|
                0 <= i < r.len() ==> (#[trigger] r@[i])@ == chunk_view(
                    chunks@[i + 1]@,
                    (i + 2) as u64,
                    n,
                    root_key@,
                    filename@,
                    mime_type@,
                ),
        decreases chunks.len() - k,
    {
        let mut strings: Vec<StringAnnotation> = Vec::new();
        strings.push(StringAnnotation::new("parent", root_key));
        strings.push(StringAnnotation::new("type", "image_chunk"));
        strings.push(StringAnnotation::new("app", APP_NAMESPACE));
        strings.push(StringAnnotation::new("filename", filename));
        strings.push(StringAnnotation::new("mime-type", mime_type));
        let mut numbers: Vec<NumericAnnotation> = Vec::new();
        numbers.push(NumericAnnotation::new("part", k as u64 + 1));
        numbers.push(NumericAnnotation::new("part-of", n));
        let data = chunks[k].clone();
        assert(data@ =~= chunks@[k as int]@);
        let e = EntityDraft {
            data,
            btl: ENTITY_BTL,
            string_annotations: strings,
            numeric_annotations: numbers,
        };
        assert(e@.strings =~= chunk_view(
            chunks@[k as int]@,
            (k + 1) as u64,
            n,
            root_key@,
            filename@,
            mime_type@,
        ).strings);
        assert(e@.numbers =~= chunk_view(
            chunks@[k as int]@,
            (k + 1) as u64,
            n,
            root_key@,
            filename@,
            mime_type@,
        ).numbers);
        r.push(e);
        k += 1;
    }
    r
}

} // verus!

verus! {

/// The non-root chunk entities of a blob split into `c`: entity `i` holds
/// payload `i + 1` under part number `i + 2`.
pub open spec fn remainder_views(
    c: Seq<Seq<u8>>,
    root_key: Seq<char>,
    filename: Seq<char>,
    mime_type: Seq<char>,
) -> Seq<EntityView> {
    Seq::new(
        (c.len() - 1) as nat,
        |i: int| chunk_view(c[i + 1], (i + 2) as u64, c.len() as u64, root_key, filename, mime_type),
    )
}

/// Every chunk entity of an upload, the root first.
pub open spec fn upload_views(
    blob: Seq<u8>,
    size: nat,
    root_key: Seq<char>,
    filename: Seq<char>,
    mime_type: Seq<char>,
    tags: Seq<char>,
    custom: Seq<(Seq<char>, Seq<char>)>,
) -> Seq<EntityView> {
    let c = chunks_of(blob, size);
    seq![root_view(c[0], c.len() as u64, filename, mime_type, tags, custom)] + remainder_views(
        c,
        root_key,
        filename,
        mime_type,
    )
}

/// The `part` annotation of a chunk entity (its first numeric annotation).
pub open spec fn part_number(e: EntityView) -> u64 {
    e.numbers[0].1
}

/// The `part-of` annotation of a chunk entity (its second numeric annotation).
pub open spec fn part_total(e: EntityView) -> u64 {
    e.numbers[1].1
}

/// For a blob split into N chunks, the N entities of the upload carry the
/// part numbers 1 to N, each exactly once, and all announce N chunks.
pub proof fn lemma_part_numbers(
    blob: Seq<u8>,
    size: nat,
    root_key: Seq<char>,
    filename: Seq<char>,
    mime_type: Seq<char>,
    tags: Seq<char>,
    custom: Seq<(Seq<char>, Seq<char>)>,
)
    requires
        size > 0,
        blob.len() < u64::MAX,
    ensures
        ({
            let es = upload_views(blob, size, root_key, filename, mime_type, tags, custom);
            let n = chunks_of(blob, size).len();
            &&& es.len() == n
            &&& forall|i: int| 0 <= i < n ==> part_total(#[trigger] es[i]) == n
            &&& es.map_values(|e: EntityView| part_number(e) as int).to_set() == Set::new(
                |p: int| 1 <= p <= n,
            )
            &&& forall|i: int, j: int|
                0 <= i < n && 0 <= j < n && part_number(#[trigger] es[i]) == part_number(
                    #[trigger] es[j],
                ) ==> i == j
        }),
{
    let es = upload_views(blob, size, root_key, filename, mime_type, tags, custom);
    let c = chunks_of(blob, size);
    let n = c.len();
    lemma_chunk_shape(blob, size);
    assert(n <= blob.len() + 1) by {
        lemma_chunk_count_bound(blob, size);
    }
    assert forall|i: int| 0 <= i < n implies part_number(#[trigger] es[i]) == i + 1 && part_total(
        es[i],
    ) == n by {
        if i > 0 {
            assert(es[i] == remainder_views(c, root_key, filename, mime_type)[i - 1]);
        }
    }
    let parts = es.map_values(|e: EntityView| part_number(e) as int);
    assert forall|p: int| parts.to_set().contains(p) <==> 1 <= p <= n by {
        if 1 <= p <= n {
            assert(parts[p - 1] == p);
        }
        if parts.to_set().contains(p) {
            let k = choose|k: int| 0 <= k < parts.len() && parts[k] == p;
            assert(parts[k] == k + 1);
        }
    }
    assert(parts.to_set() =~= Set::new(|p: int| 1 <= p <= n));
}

/// A split never has more chunks than the blob has bytes, plus one.
pub proof fn lemma_chunk_count_bound(b: Seq<u8>, size: nat)
    requires
        size > 0,
    ensures
        chunks_of(b, size).len() <= b.len() + 1,
    decreases b.len(),
{
    if b.len() > size {
        lemma_chunks_step(b, size);
        lemma_chunk_count_bound(b.skip(size as int), size);
    }
}

} // verus!

verus! {

/// An empty blob is stored as exactly one entity, the root, with an empty
/// payload and `part-of` 1.
pub proof fn lemma_empty_blob(
    size: nat,
    root_key: Seq<char>,
    filename: Seq<char>,
    mime_type: Seq<char>,
    tags: Seq<char>,
    custom: Seq<(Seq<char>, Seq<char>)>,
)
    requires
        size > 0,
    ensures
        ({
            let es = upload_views(Seq::empty(), size, root_key, filename, mime_type, tags, custom);
            &&& es.len() == 1
            &&& es[0].data.len() == 0
            &&& part_number(es[0]) == 1
            &&& part_total(es[0]) == 1
        }),
{
    lemma_chunk_shape(Seq::<u8>::empty(), size);
}

} // verus!
