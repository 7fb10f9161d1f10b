//! Reading from the http-wasm host. The host writes into a buffer that the
//! guest hands it and returns a length; this module turns that into text.

use vstd::prelude::*;
use vstd::slice::slice_subrange;

use crate::text;
use crate::text::{decode_lossy, decode_strict};

verus! {

/// Capacity of the buffer for the plugin config.
pub const CONFIG_CAPACITY: usize = 65536;

/// Capacity of the buffer for the request method.
pub const METHOD_CAPACITY: usize = 16;

/// Capacity of the buffer for the request URI.
pub const URI_CAPACITY: usize = 2048;

/// Capacity of the buffer for the names of the request headers.
pub const HEADER_NAMES_CAPACITY: usize = 4096;

/// Capacity of the buffer for the values of one request header.
pub const HEADER_VALUES_CAPACITY: usize = 2048;

/// How much of a buffer the host has filled, by the length that it reported: a
/// negative length counts as nothing, one beyond the capacity as all of it.
pub open spec fn filled(buf: Seq<u8>, len: int, cap: usize) -> Seq<u8> {
    let bounded = if len < 0 {
        0
    } else if len < cap {
        len
    } else {
        cap as int
    };
    if bounded < buf.len() {
        buf.take(bounded)
    } else {
        buf
    }
}

/// The text that bytes encode; empty where they are not well-formed UTF-8.
pub open spec fn text_or_empty(bytes: Seq<u8>) -> Seq<char> {
    if vstd::utf8::valid_utf8(bytes) {
        vstd::utf8::decode_utf8(bytes)
    } else {
        Seq::empty()
    }
}

/// A buffer of `cap` zero bytes, as the host is handed it.
pub open spec fn is_blank(buf: Seq<u8>, cap: usize) -> bool {
    &&& buf.len() == cap
    &&& forall|i: int| 0 <= i < cap ==> buf[i] == 0
}

fn blank(cap: usize) -> (buf: Vec<u8>)
    ensures
        is_blank(buf@, cap),
{
    vec![0u8; cap]
}

/// The text that the host has written into `buf`, of which it reported `len`
/// bytes.
pub fn host_text(buf: Vec<u8>, len: i32, cap: usize) -> (text: String)
    ensures
        text@ == text_or_empty(filled(buf@, len as int, cap)),
{
    let ghost given = buf@;
    let mut buf: Vec<u8> = buf;
    let bounded: usize = if len < 0 {
        0
    } else if (len as usize) < cap {
        len as usize
    } else {
        cap
    };
    buf.truncate(bounded);
    assert(buf@ == filled(given, len as int, cap));
    match decode_strict(buf) {
        Some(text) => text,
        None => String::new(),
    }
}

/// Read a text from the host. `f` hands the host a blank buffer of `cap` bytes
/// and gives back the buffer and the length that the host reported.
pub fn read_via<F: Fn(Vec<u8>) -> (Vec<u8>, i32)>(cap: usize, f: F) -> (text: String)
    requires
        forall|buf: Vec<u8>| is_blank(buf@, cap) ==> #[trigger] f.requires((buf,)),
    ensures
        exists|buf: Vec<u8>, written: (Vec<u8>, i32)| #[trigger]
            f.ensures((buf,), written) && is_blank(buf@, cap) && text@ == text_or_empty(
                filled(written.0@, written.1 as int, cap),
            ),
{
    let (buf, len) = f(blank(cap));
    host_text(buf, len, cap)
}

/// The non-empty runs of bytes between the NUL bytes of a buffer, in order.
pub open spec fn nul_fields(buf: Seq<u8>) -> Seq<Seq<u8>>
    decreases buf.len(),
{
    proof {
        buf.index_of_first_ensures(0);
    }
    match buf.index_of_first(0) {
        Some(i) => if i == 0 {
            nul_fields(buf.skip(1))
        } else {
            seq![buf.take(i)] + nul_fields(buf.skip(i + 1))
        },
        None => if buf.len() == 0 {
            Seq::empty()
        } else {
            seq![buf]
        },
    }
}

/// The texts of byte strings, malformed ones repaired.
pub open spec fn lossy_texts(fields: Seq<Seq<u8>>) -> Seq<Seq<char>> {
    fields.map_values(|field: Seq<u8>| text::utf8_lossy(field))
}

/// `list` holds the text of each field of `buf`, in order: what a well-formed
/// field encodes, and a malformed one repaired. No text is empty or holds a NUL.
pub open spec fn is_list_of(list: Seq<String>, buf: Seq<u8>) -> bool {
    &&& text::texts(list) == lossy_texts(nul_fields(buf))
    &&& forall|i: int|
        0 <= i < list.len() && vstd::utf8::valid_utf8(nul_fields(buf)[i]) ==> (#[trigger] list[i])@
            == vstd::utf8::decode_utf8(nul_fields(buf)[i])
    &&& forall|i: int|
        0 <= i < list.len() ==> (#[trigger] list[i])@.len() > 0 && !list[i]@.contains('\0')
}

/// Split a NUL-separated list into its non-empty texts.
pub fn split_nul(buf: &[u8]) -> (list: Vec<String>)
    ensures
        is_list_of(list@, buf@),
{
    let mut list: Vec<String> = Vec::new();
    let ghost mut fields: Seq<Seq<u8>> = Seq::empty();
    let mut start: usize = 0;
    let mut i: usize = 0;
    assert(buf@.skip(0) == buf@);
    while i < buf.len()
        invariant
            start <= i <= buf.len(),
            forall|j: int| start <= j < i ==> buf@[j] != 0,
            fields + nul_fields(buf@.skip(start as int)) == nul_fields(buf@),
            text::texts(list@) == lossy_texts(fields),
            forall|j: int|
                0 <= j < list@.len() && vstd::utf8::valid_utf8(fields[j]) ==> (
                #[trigger] list@[j])@ == vstd::utf8::decode_utf8(fields[j]),
            forall|j: int|
                0 <= j < list@.len() ==> (#[trigger] list@[j])@.len() > 0
                    && !list@[j]@.contains('\0'),
        decreases buf.len() - i,
    {
        if buf[i] == 0 {
            let ghost rest = buf@.skip(start as int);
            let ghost field = buf@.subrange(start as int, i as int);
            proof {
                rest.index_of_first_ensures(0);
                assert(rest[i - start] == 0);
                assert(rest.contains(0));
                assert(rest.index_of_first(0) == Some(i - start));
                assert(rest.skip(i - start + 1) == buf@.skip(i + 1));
                assert(rest.take(i - start) == field);
            }
            if start < i {
                list.push(decode_lossy(slice_subrange(buf, start, i)));
                proof {
                    assert(fields + (seq![field] + nul_fields(buf@.skip(i + 1))) == fields.push(
                        field,
                    ) + nul_fields(buf@.skip(i + 1)));
                    assert(lossy_texts(fields.push(field)) == lossy_texts(fields).push(
                        text::utf8_lossy(field),
                    ));
                    assert(text::texts(list@) == lossy_texts(fields.push(field)));
                    assert(fields.len() == lossy_texts(fields).len());
                    fields = fields.push(field);
                }
            }
            start = i + 1;
        }
        i += 1;
    }
    let ghost rest = buf@.skip(start as int);
    proof {
        rest.index_of_first_ensures(0);
        assert forall|j: int| 0 <= j < rest.len() implies rest[j] != 0 by {
            assert(rest[j] == buf@[j + start]);
        }
        assert(rest == buf@.subrange(start as int, i as int));
    }
    if start < buf.len() {
        list.push(decode_lossy(slice_subrange(buf, start, i)));
        proof {
            assert(nul_fields(buf@) == fields.push(rest));
            assert(lossy_texts(fields.push(rest)) == lossy_texts(fields).push(
                text::utf8_lossy(rest),
            ));
            assert(text::texts(list@) == lossy_texts(fields.push(rest)));
            assert(fields.len() == lossy_texts(fields).len());
        }
    } else {
        assert(nul_fields(buf@) == fields);
    }
    list
}

/// The list that the host has written into `buf`. The low half of `res` is the
/// length that it reported.
pub fn host_list(buf: Vec<u8>, res: i64, cap: usize) -> (list: Vec<String>)
    ensures
        is_list_of(list@, filled(buf@, res as int % 0x1_0000_0000, cap)),
{
    let ghost given = buf@;
    let mut buf: Vec<u8> = buf;
    assert(0 <= (res & 0xffff_ffff) <= 0xffff_ffff && (res & 0xffff_ffff) == res % 0x1_0000_0000)
        by (bit_vector);
    let len: usize = (res & 0xffff_ffff) as usize;
    let bounded: usize = if len < cap {
        len
    } else {
        cap
    };
    buf.truncate(bounded);
    assert(buf@ == filled(given, res as int % 0x1_0000_0000, cap));
    split_nul(buf.as_slice())
}

/// Read the names of the request headers. `read` hands the host a blank buffer
/// and gives back the buffer and what the host returned.
pub fn request_header_names<F: Fn(Vec<u8>) -> (Vec<u8>, i64)>(read: F) -> (names: Vec<String>)
    requires
        forall|buf: Vec<u8>|
            is_blank(buf@, HEADER_NAMES_CAPACITY) ==> #[trigger] read.requires((buf,)),
    ensures
        exists|buf: Vec<u8>, written: (Vec<u8>, i64)| #[trigger]
            read.ensures((buf,), written) && is_blank(buf@, HEADER_NAMES_CAPACITY) && is_list_of(
                names@,
                filled(written.0@, written.1 as int % 0x1_0000_0000, HEADER_NAMES_CAPACITY),
            ),
{
    let (buf, res) = read(blank(HEADER_NAMES_CAPACITY));
    host_list(buf, res, HEADER_NAMES_CAPACITY)
}

/// Read the values of one request header. `read` hands the host the name and a
/// blank buffer, and gives back the buffer and what the host returned.
pub fn request_header_values<F: Fn(&str, Vec<u8>) -> (Vec<u8>, i64)>(
    name: &str,
    read: F,
) -> (values: Vec<String>)
    requires
        forall|buf: Vec<u8>|
            is_blank(buf@, HEADER_VALUES_CAPACITY) ==> #[trigger] read.requires((name, buf)),
    ensures
        exists|buf: Vec<u8>, written: (Vec<u8>, i64)| #[trigger]
            read.ensures((name, buf), written) && is_blank(buf@, HEADER_VALUES_CAPACITY)
                && is_list_of(
                values@,
                filled(written.0@, written.1 as int % 0x1_0000_0000, HEADER_VALUES_CAPACITY),
            ),
{
    let (buf, res) = read(name, blank(HEADER_VALUES_CAPACITY));
    host_list(buf, res, HEADER_VALUES_CAPACITY)
}

/// The characters of each pair of a list of headers.
pub open spec fn header_texts(headers: Seq<(String, String)>) -> Seq<(Seq<char>, Seq<char>)> {
    headers.map_values(|header: (String, String)| (header.0@, header.1@))
}

/// One header for each value of a name, in the order of the values.
pub open spec fn named_values(name: Seq<char>, values: Seq<Seq<char>>) -> Seq<
    (Seq<char>, Seq<char>),
> {
    values.map_values(|value: Seq<char>| (name, value))
}

/// The headers that arise from a list of names and the list of values of each:
/// all values of the first name, then all values of the next.
pub open spec fn paired_headers(names: Seq<Seq<char>>, values: Seq<Seq<Seq<char>>>) -> Seq<
    (Seq<char>, Seq<char>),
>
    recommends
        names.len() == values.len(),
    decreases names.len(),
{
    if names.len() == 0 {
        Seq::empty()
    } else {
        paired_headers(names.drop_last(), values.drop_last()) + named_values(
            names.last(),
            values.last(),
        )
    }
}

/// The characters of each string of a list of lists.
pub open spec fn list_texts(lists: Seq<Vec<String>>) -> Seq<Seq<Seq<char>>> {
    lists.map_values(|list: Vec<String>| text::texts(list@))
}

/// Pair each value with its name.
pub fn pair_headers(names: &Vec<String>, values: &Vec<Vec<String>>) -> (headers: Vec<
    (String, String),
>)
    requires
        names@.len() == values@.len(),
    ensures
        header_texts(headers@) == paired_headers(text::texts(names@), list_texts(values@)),
{
    let mut headers: Vec<(String, String)> = Vec::new();
    let ghost all_names = text::texts(names@);
    let ghost all_values = list_texts(values@);
    let mut i: usize = 0;
    while i < names.len()
        invariant
            i <= names.len() == values.len(),
            all_names == text::texts(names@),
            all_values == list_texts(values@),
            header_texts(headers@) == paired_headers(
                all_names.take(i as int),
                all_values.take(i as int),
            ),
        decreases names.len() - i,
    {
        let ghost before = header_texts(headers@);
        let ghost list = text::texts(values@[i as int]@);
        let mut j: usize = 0;
        while j < values[i].len()
            invariant
                i < names.len() == values.len(),
                j <= values@[i as int].len(),
                list == text::texts(values@[i as int]@),
                header_texts(headers@) == before + named_values(
                    names@[i as int]@,
                    list.take(j as int),
                ),
            decreases values@[i as int].len() - j,
        {
            let ghost inner = header_texts(headers@);
            headers.push((names[i].clone(), values[i][j].clone()));
            assert(header_texts(headers@) == inner.push((names@[i as int]@, list[j as int])));
            assert(named_values(names@[i as int]@, list.take(j + 1)) == named_values(
                names@[i as int]@,
                list.take(j as int),
            ).push((names@[i as int]@, list[j as int])));
            j += 1;
        }
        assert(list.take(list.len() as int) == list);
        assert(all_names.take(i + 1).drop_last() == all_names.take(i as int));
        assert(all_values.take(i + 1).drop_last() == all_values.take(i as int));
        i += 1;
    }
    assert(all_names.take(all_names.len() as int) == all_names);
    assert(all_values.take(all_values.len() as int) == all_values);
    headers
}

/// `values` are what `values_of` gave for each of `names`, in their order.
pub open spec fn are_values<V: Fn(&str) -> Vec<String>>(
    values_of: V,
    names: Seq<String>,
    values: Seq<Vec<String>>,
) -> bool {
    &&& values.len() == names.len()
    &&& forall|i: int|
        0 <= i < names.len() ==> is_values(values_of, names[i], #[trigger] values[i])
}

/// Is `values` what `values_of` gives for the name that `name` holds?
pub open spec fn is_values<V: Fn(&str) -> Vec<String>>(
    values_of: V,
    name: String,
    values: Vec<String>,
) -> bool {
    exists|key: &str| #[trigger] key@ == name@ && values_of.ensures((key,), values)
}

/// Read the request headers: the names first, then the values of each name.
pub fn read_request_headers<N: Fn() -> Vec<String>, V: Fn(&str) -> Vec<String>>(
    names: N,
    values_of: V,
) -> (headers: Vec<(String, String)>)
    requires
        names.requires(()),
        forall|name: &str| #[trigger] values_of.requires((name,)),
    ensures
        exists|read: Vec<String>, values: Seq<Vec<String>>| #[trigger]
            are_values(values_of, read@, values) && names.ensures((), read) && header_texts(
                headers@,
            ) == paired_headers(text::texts(read@), list_texts(values)),
{
    let read: Vec<String> = names();
    let mut values: Vec<Vec<String>> = Vec::new();
    let mut i: usize = 0;
    while i < read.len()
        invariant
            i <= read.len(),
            forall|name: &str| #[trigger] values_of.requires((name,)),
            are_values(values_of, read@.take(i as int), values@),
        decreases read.len() - i,
    {
        let ghost before = values@;
        let name: &str = read[i].as_str();
        let list: Vec<String> = values_of(name);
        values.push(list);
        assert(is_values(values_of, read@[i as int], list)) by {
            assert(name@ == read@[i as int]@);
        }
        assert forall|j: int| 0 <= j < i + 1 implies is_values(
            values_of,
            read@.take(i + 1)[j],
            #[trigger] values@[j],
        ) by {
            if j < i {
                assert(values@[j] == before[j]);
                assert(read@.take(i as int)[j] == read@[j]);
            }
        }
        i += 1;
    }
    assert(read@.take(read@.len() as int) == read@);
    pair_headers(&read, &values)
}

/// The name of the header that holds the host of a request.
pub fn host_header() -> (name: &'static str)
    ensures
        name@ == "host"@,
{
    "host"
}

/// The scheme that requests are evaluated under. The host terminates TLS and
/// does not expose the scheme, so every request counts as https.
pub fn scheme() -> (scheme: &'static str)
    ensures
        scheme@ == "https"@,
{
    "https"
}

/// However long a text the host reports, no more than the buffer is read.
pub proof fn law_filled_within_capacity(buf: Seq<u8>, len: int, cap: usize)
    ensures
        filled(buf, len, cap).len() <= cap,
        filled(buf, len, cap).len() <= buf.len(),
        filled(buf, len, cap).is_prefix_of(buf),
{
    assert(filled(buf, len, cap) == buf.subrange(0, filled(buf, len, cap).len() as int));
}

/// A list as the host writes it: each entry followed by a NUL byte.
pub open spec fn nul_terminated(entries: Seq<Seq<u8>>) -> Seq<u8>
    decreases entries.len(),
{
    if entries.len() == 0 {
        Seq::empty()
    } else {
        entries[0].push(0) + nul_terminated(entries.skip(1))
    }
}

/// A list that the host writes reads back as it was, where no entry is empty or
/// holds a NUL byte.
pub proof fn law_list_reads_back(entries: Seq<Seq<u8>>)
    requires
        forall|i: int|
            0 <= i < entries.len() ==> (#[trigger] entries[i]).len() > 0 && !entries[i].contains(0),
    ensures
        nul_fields(nul_terminated(entries)) == entries,
    decreases entries.len(),
{
    if entries.len() == 0 {
        Seq::<u8>::empty().index_of_first_ensures(0);
        assert(nul_fields(Seq::<u8>::empty()) == entries);
    } else {
        let first = entries[0];
        let rest = entries.skip(1);
        let buf = nul_terminated(entries);
        assert forall|i: int| 0 <= i < rest.len() implies (#[trigger] rest[i]).len() > 0
            && !rest[i].contains(0) by {
            assert(rest[i] == entries[i + 1]);
        }
        law_list_reads_back(rest);
        buf.index_of_first_ensures(0);
        let n = first.len() as int;
        assert(buf[n] == 0);
        assert(buf.contains(0));
        assert forall|j: int| 0 <= j < n implies buf[j] != 0 by {
            assert(buf[j] == first[j]);
            assert(first.contains(first[j]));
        }
        assert(buf.index_of_first(0) == Some(n));
        assert(buf.take(n) == first);
        assert(buf.skip(n + 1) == nul_terminated(rest));
        assert(seq![first] + rest == entries);
    }
}

/// Texts that the host writes read back as they were: each entry of the list is
/// what the bytes that the host wrote for it encode.
pub proof fn law_texts_read_back(entries: Seq<Seq<u8>>, list: Seq<String>)
    requires
        forall|i: int|
            0 <= i < entries.len() ==> (#[trigger] entries[i]).len() > 0 && !entries[i].contains(0)
                && vstd::utf8::valid_utf8(entries[i]),
        is_list_of(list, nul_terminated(entries)),
    ensures
        text::texts(list) == entries.map_values(
            |entry: Seq<u8>| vstd::utf8::decode_utf8(entry),
        ),
{
    law_list_reads_back(entries);
    assert(text::texts(list).len() == lossy_texts(entries).len());
    assert forall|i: int| 0 <= i < entries.len() implies #[trigger] text::texts(list)[i]
        == vstd::utf8::decode_utf8(entries[i]) by {
        assert(list[i]@ == vstd::utf8::decode_utf8(entries[i]));
    }
}

/// The entries of a list hold no NUL byte, and none is empty.
pub proof fn law_fields_are_nul_free(buf: Seq<u8>)
    ensures
        forall|i: int|
            0 <= i < nul_fields(buf).len() ==> (#[trigger] nul_fields(buf)[i]).len() > 0
                && !nul_fields(buf)[i].contains(0),
    decreases buf.len(),
{
    buf.index_of_first_ensures(0);
    if let Some(k) = buf.index_of_first(0) {
        if k == 0 {
            law_fields_are_nul_free(buf.skip(1));
            assert(nul_fields(buf) == nul_fields(buf.skip(1)));
        } else {
            law_fields_are_nul_free(buf.skip(k + 1));
            let tail = nul_fields(buf.skip(k + 1));
            assert forall|i: int| 0 <= i < nul_fields(buf).len() implies (#[trigger] nul_fields(
                buf,
            )[i]).len() > 0 && !nul_fields(buf)[i].contains(0) by {
                if i == 0 {
                    assert forall|j: int| 0 <= j < k implies buf.take(k)[j] != 0 by {
                        assert(buf.take(k)[j] == buf[j]);
                    }
                } else {
                    assert(nul_fields(buf)[i] == tail[i - 1]);
                }
            }
        }
    } else if buf.len() > 0 {
        assert(nul_fields(buf) == seq![buf]);
    }
}

/// Of what the host wrote, exactly the bytes that it reported are read, as far
/// as the buffer goes.
pub proof fn law_filled_as_reported(buf: Seq<u8>, len: int, cap: usize)
    requires
        buf.len() == cap,
    ensures
        0 <= len <= cap ==> filled(buf, len, cap) == buf.take(len),
        len < 0 ==> filled(buf, len, cap).len() == 0,
        len > cap ==> filled(buf, len, cap) == buf,
{
    assert(buf.take(cap as int) == buf);
}

/// A text that the host writes whole reads back as it was.
pub proof fn law_text_reads_back(text: Seq<char>, rest: Seq<u8>, cap: usize)
    requires
        vstd::utf8::encode_utf8(text).len() + rest.len() == cap,
    ensures
        ({
            let bytes = vstd::utf8::encode_utf8(text);
            text_or_empty(filled(bytes + rest, bytes.len() as int, cap)) == text
        }),
{
    let bytes = vstd::utf8::encode_utf8(text);
    vstd::utf8::encode_utf8_valid_utf8(text);
    vstd::utf8::encode_utf8_decode_utf8(text);
    law_filled_as_reported(bytes + rest, bytes.len() as int, cap);
    assert((bytes + rest).take(bytes.len() as int) == bytes);
}

/// Bytes that are not well-formed read as no text at all.
pub proof fn law_malformed_text_is_empty(bytes: Seq<u8>)
    ensures
        !vstd::utf8::valid_utf8(bytes) ==> text_or_empty(bytes).len() == 0,
        vstd::utf8::valid_utf8(bytes) ==> vstd::utf8::encode_utf8(text_or_empty(bytes)) == bytes,
{
    if vstd::utf8::valid_utf8(bytes) {
        vstd::utf8::decode_utf8_encode_utf8(bytes);
    }
}

/// How much is read of each thing: 65536 bytes of a config, 16 of a method, 2048
/// of a URI and of the values of a header, 4096 of the header names, and no more.
pub proof fn law_capacities(buf: Seq<u8>, len: int)
    requires
        len >= 0,
        len <= buf.len(),
    ensures
        filled(buf, len, CONFIG_CAPACITY) == if len <= 65536 {
            buf.take(len)
        } else {
            buf.take(65536)
        },
        filled(buf, len, METHOD_CAPACITY) == if len <= 16 {
            buf.take(len)
        } else {
            buf.take(16)
        },
        filled(buf, len, URI_CAPACITY) == if len <= 2048 {
            buf.take(len)
        } else {
            buf.take(2048)
        },
        filled(buf, len, HEADER_NAMES_CAPACITY) == if len <= 4096 {
            buf.take(len)
        } else {
            buf.take(4096)
        },
        filled(buf, len, HEADER_VALUES_CAPACITY) == if len <= 2048 {
            buf.take(len)
        } else {
            buf.take(2048)
        },
{
    assert(buf.take(buf.len() as int) == buf);
}

/// The host is handed a buffer of the whole capacity, all zero.
pub proof fn law_blank(buf: Seq<u8>, cap: usize)
    ensures
        is_blank(buf, cap) <==> buf == Seq::new(cap as nat, |i: int| 0u8),
{
    if is_blank(buf, cap) {
        assert(buf =~= Seq::new(cap as nat, |i: int| 0u8));
    }
}

/// A NUL byte parts the fields before it from those after it.
pub proof fn law_fields_part_at_nul(a: Seq<u8>, b: Seq<u8>)
    ensures
        nul_fields(a + seq![0u8] + b) == nul_fields(a) + nul_fields(b),
    decreases a.len(),
{
    let whole = a + seq![0u8] + b;
    a.index_of_first_ensures(0);
    whole.index_of_first_ensures(0);
    assert(whole[a.len() as int] == 0);
    assert(whole.contains(0));
    match a.index_of_first(0) {
        Some(i) => {
            assert forall|j: int| 0 <= j < i implies whole[j] != 0 by {
                assert(whole[j] == a[j]);
            }
            assert(whole[i] == 0);
            assert(whole.index_of_first(0) == Some(i));
            let rest = a.skip(i + 1);
            law_fields_part_at_nul(rest, b);
            assert(whole.skip(i + 1) == rest + seq![0u8] + b);
            assert(whole.take(i) == a.take(i));
            if i == 0 {
                assert(nul_fields(a) == nul_fields(rest));
            } else {
                assert(nul_fields(a) == seq![a.take(i)] + nul_fields(rest));
                assert(nul_fields(a) + nul_fields(b) == seq![a.take(i)] + (nul_fields(rest)
                    + nul_fields(b)));
            }
        },
        None => {
            let n = a.len() as int;
            assert forall|j: int| 0 <= j < n implies whole[j] != 0 by {
                assert(whole[j] == a[j]);
                assert(a.contains(a[j]));
            }
            assert(whole.index_of_first(0) == Some(n));
            assert(whole.skip(n + 1) == b);
            assert(whole.take(n) == a);
            if n == 0 {
                assert(nul_fields(a) == Seq::<Seq<u8>>::empty());
                assert(nul_fields(a) + nul_fields(b) == nul_fields(b));
            } else {
                assert(nul_fields(a) == seq![a]);
            }
        },
    }
}

/// Bytes without a NUL are one field, and no bytes are none.
pub proof fn law_field_without_nul(field: Seq<u8>)
    requires
        !field.contains(0),
    ensures
        field.len() > 0 ==> nul_fields(field) == seq![field],
        field.len() == 0 ==> nul_fields(field).len() == 0,
{
    field.index_of_first_ensures(0);
}

/// A list holds one text for each field, in order.
pub proof fn law_list_of_fields(list: Seq<String>, buf: Seq<u8>)
    requires
        is_list_of(list, buf),
    ensures
        list.len() == nul_fields(buf).len(),
        forall|i: int|
            0 <= i < list.len() ==> (#[trigger] list[i])@ == text::utf8_lossy(nul_fields(buf)[i]),
        forall|i: int|
            0 <= i < list.len() && vstd::utf8::valid_utf8(nul_fields(buf)[i]) ==> (
            #[trigger] list[i])@ == vstd::utf8::decode_utf8(nul_fields(buf)[i]),
{
    assert(text::texts(list).len() == lossy_texts(nul_fields(buf)).len());
    assert forall|i: int| 0 <= i < list.len() implies (#[trigger] list[i])@ == text::utf8_lossy(
        nul_fields(buf)[i],
    ) by {
        assert(text::texts(list)[i] == lossy_texts(nul_fields(buf))[i]);
    }
}

/// The headers are read pair by pair, none left out.
pub proof fn law_header_texts(headers: Seq<(String, String)>)
    ensures
        header_texts(headers).len() == headers.len(),
        forall|i: int|
            0 <= i < headers.len() ==> #[trigger] header_texts(headers)[i] == (
                headers[i].0@,
                headers[i].1@,
            ),
{
}

/// One name more adds one header for each of its values, in their order, after
/// all the others; no names give no headers.
pub proof fn law_each_value_is_a_header(
    names: Seq<Seq<char>>,
    values: Seq<Seq<Seq<char>>>,
    name: Seq<char>,
    list: Seq<Seq<char>>,
)
    requires
        names.len() == values.len(),
    ensures
        paired_headers(Seq::empty(), Seq::empty()).len() == 0,
        ({
            let before = paired_headers(names, values);
            let after = paired_headers(names.push(name), values.push(list));
            &&& after.len() == before.len() + list.len()
            &&& forall|i: int| 0 <= i < before.len() ==> #[trigger] after[i] == before[i]
            &&& forall|i: int|
                0 <= i < list.len() ==> #[trigger] after[before.len() + i] == (name, list[i])
        }),
{
    assert(names.push(name).drop_last() == names);
    assert(values.push(list).drop_last() == values);
}

/// Each name was asked for its own values, and each answer is taken whole.
pub proof fn law_values_of_each_name<V: Fn(&str) -> Vec<String>>(
    values_of: V,
    names: Seq<String>,
    values: Seq<Vec<String>>,
    i: int,
)
    requires
        are_values(values_of, names, values),
        0 <= i < names.len(),
    ensures
        values.len() == names.len(),
        exists|key: &str| #[trigger] key@ == names[i]@ && values_of.ensures((key,), values[i]),
        list_texts(values).len() == values.len(),
        list_texts(values)[i].len() == values[i]@.len(),
        forall|j: int|
            0 <= j < values[i]@.len() ==> #[trigger] list_texts(values)[i][j] == values[i]@[j]@,
{
    assert(is_values(values_of, names[i], values[i]));
}

} // verus!
