//! Messages as sequences of fields.
//!
//! Most messages are a fixed sequence of integers and strings.  Their
//! grammar is a list of field kinds per message code, and their value is the
//! list of field values they carry; the payload is the concatenation of the
//! encodings of the fields.
use vstd::prelude::*;
use vstd::utf8::*;

use crate::protocol::wire::{
    framed_blob, framed_text, framed_text_list, law_text_list_roundtrip, sp_text_list, texts_fit, law_blob_roundtrip, law_bool_roundtrip, law_i32_roundtrip,
    law_text_roundtrip, law_u16_roundtrip, law_u32_roundtrip, law_u64_roundtrip,
    law_u8_roundtrip, le_bytes, legacy_bytes, lemma_le_bytes_len, sp_bool, sp_bytes,
    sp_file_size, sp_i32, sp_string, sp_u16, sp_u32, sp_u64, sp_u8, Decoded,
};

verus! {

broadcast use vstd::seq::group_seq_axioms;

/// Kind of a field, as a reader sees it.
pub enum Kind {
    U8,
    Bool,
    U16,
    U32,
    I32,
    U64,
    FileSize,
    Text,
    Blob,
    TextList,
}

/// Value of a field.
pub enum Field {
    U8(u8),
    Bool(bool),
    U16(u16),
    U32(u32),
    I32(i32),
    U64(u64),
    Text(Seq<char>),
    Blob(Seq<u8>),
    TextList(Seq<Seq<char>>),
    /// A string in the encoding for legacy clients (written only).
    Legacy(Seq<char>),
    /// Bytes without a length prefix (written only).
    Raw(Seq<u8>),
    /// An optional value that was not sent (read only).
    Absent,
    /// Values that belong together, in order (read only).
    Record(Seq<Field>),
    /// A list of values (read only).
    List(Seq<Field>),
}

/// Decodes one field of the given kind.
pub open spec fn sp_field(kind: Kind, data: Seq<u8>, pos: int) -> Decoded<Field> {
    match kind {
        Kind::U8 => match sp_u8(data, pos) {
            Ok((v, q)) => Ok((Field::U8(v), q)),
            Err(e) => Err(e),
        },
        Kind::Bool => match sp_bool(data, pos) {
            Ok((v, q)) => Ok((Field::Bool(v), q)),
            Err(e) => Err(e),
        },
        Kind::U16 => match sp_u16(data, pos) {
            Ok((v, q)) => Ok((Field::U16(v), q)),
            Err(e) => Err(e),
        },
        Kind::U32 => match sp_u32(data, pos) {
            Ok((v, q)) => Ok((Field::U32(v), q)),
            Err(e) => Err(e),
        },
        Kind::I32 => match sp_i32(data, pos) {
            Ok((v, q)) => Ok((Field::I32(v), q)),
            Err(e) => Err(e),
        },
        Kind::U64 => match sp_u64(data, pos) {
            Ok((v, q)) => Ok((Field::U64(v), q)),
            Err(e) => Err(e),
        },
        Kind::FileSize => match sp_file_size(data, pos) {
            Ok((v, q)) => Ok((Field::U64(v), q)),
            Err(e) => Err(e),
        },
        Kind::Text => match sp_string(data, pos) {
            Ok((v, q)) => Ok((Field::Text(v), q)),
            Err(e) => Err(e),
        },
        Kind::Blob => match sp_bytes(data, pos) {
            Ok((v, q)) => Ok((Field::Blob(v), q)),
            Err(e) => Err(e),
        },
        Kind::TextList => match sp_text_list(data, pos) {
            Ok((v, q)) => Ok((Field::TextList(v), q)),
            Err(e) => Err(e),
        },
    }
}

/// Decodes the fields `kinds[i..]`, appending their values to `acc`.
pub open spec fn sp_fields_from(
    kinds: Seq<Kind>,
    i: int,
    data: Seq<u8>,
    pos: int,
    acc: Seq<Field>,
) -> Decoded<Seq<Field>>
    decreases kinds.len() - i,
{
    if i < 0 || i >= kinds.len() {
        Ok((acc, pos))
    } else {
        match sp_field(kinds[i], data, pos) {
            Ok((f, q)) => sp_fields_from(kinds, i + 1, data, q, acc.push(f)),
            Err(e) => Err(e),
        }
    }
}

/// Decodes a sequence of fields of the given kinds, in order.
pub open spec fn sp_fields(kinds: Seq<Kind>, data: Seq<u8>, pos: int) -> Decoded<Seq<Field>> {
    sp_fields_from(kinds, 0, data, pos, Seq::empty())
}

/// Bytes of one field.
pub open spec fn encode_field(f: Field) -> Seq<u8> {
    match f {
        Field::U8(v) => seq![v],
        Field::Bool(v) => seq![if v { 1u8 } else { 0u8 }],
        Field::U16(v) => le_bytes(v as nat, 2),
        Field::U32(v) => le_bytes(v as nat, 4),
        Field::I32(v) => le_bytes((v as u32) as nat, 4),
        Field::U64(v) => le_bytes(v as nat, 8),
        Field::Text(s) => framed_text(s),
        Field::Blob(b) => framed_blob(b),
        Field::TextList(l) => framed_text_list(l),
        Field::Legacy(s) => framed_blob(legacy_bytes(s)),
        Field::Raw(b) => b,
        Field::Absent | Field::Record(_) | Field::List(_) => Seq::empty(),
    }
}

/// Bytes of the fields `fields[i..]`.
pub open spec fn encode_fields_from(fields: Seq<Field>, i: int) -> Seq<u8>
    decreases fields.len() - i,
{
    if i < 0 || i >= fields.len() {
        Seq::empty()
    } else {
        encode_field(fields[i]) + encode_fields_from(fields, i + 1)
    }
}

/// Bytes of a sequence of fields: their encodings, one after another.
pub open spec fn encode_fields(fields: Seq<Field>) -> Seq<u8> {
    encode_fields_from(fields, 0)
}

/// The kind a reader uses for a field of this value.
pub open spec fn kind_of(f: Field) -> Kind {
    match f {
        Field::U8(_) => Kind::U8,
        Field::Bool(_) => Kind::Bool,
        Field::U16(_) => Kind::U16,
        Field::U32(_) => Kind::U32,
        Field::I32(_) => Kind::I32,
        Field::U64(_) => Kind::U64,
        Field::Text(_) => Kind::Text,
        Field::Blob(_) => Kind::Blob,
        Field::TextList(_) => Kind::TextList,
        Field::Legacy(_) => Kind::Text,
        Field::Raw(_) => Kind::Blob,
        Field::Absent | Field::Record(_) | Field::List(_) => Kind::Blob,
    }
}

/// The field reads back as written: booleans are 0 or 1, strings and blobs
/// fit their 32-bit length prefix, and the value is not one only written.
pub open spec fn field_readable(f: Field) -> bool {
    match f {
        Field::Text(s) => encode_utf8(s).len() <= u32::MAX,
        Field::Blob(b) => b.len() <= u32::MAX,
        Field::TextList(l) => l.len() <= u32::MAX && texts_fit(l),
        Field::Legacy(_) => false,
        Field::Raw(_) => false,
        Field::Absent | Field::Record(_) | Field::List(_) => false,
        _ => true,
    }
}

pub open spec fn fields_readable(fields: Seq<Field>) -> bool {
    forall|i: int| 0 <= i < fields.len() ==> field_readable(#[trigger] fields[i])
}

pub open spec fn kinds_of(fields: Seq<Field>) -> Seq<Kind> {
    fields.map_values(|f: Field| kind_of(f))
}

/// A readable field decodes back to itself.
pub proof fn law_field_roundtrip(f: Field, data: Seq<u8>, pos: int)
    requires
        field_readable(f),
        0 <= pos,
        pos + encode_field(f).len() <= data.len(),
        data.subrange(pos, pos + encode_field(f).len()) == encode_field(f),
    ensures
        sp_field(kind_of(f), data, pos) == Decoded::<Field>::Ok((f, pos + encode_field(f).len())),
{
    match f {
        Field::U8(v) => {
            assert(data[pos] == data.subrange(pos, pos + 1)[0]);
            law_u8_roundtrip(data, pos, v);
        },
        Field::Bool(v) => {
            assert(data[pos] == data.subrange(pos, pos + 1)[0]);
            law_bool_roundtrip(data, pos, v);
        },
        Field::U16(v) => {
            lemma_le_bytes_len(v as nat, 2);
            law_u16_roundtrip(data, pos, v);
        },
        Field::U32(v) => {
            lemma_le_bytes_len(v as nat, 4);
            law_u32_roundtrip(data, pos, v);
        },
        Field::I32(v) => {
            lemma_le_bytes_len((v as u32) as nat, 4);
            law_i32_roundtrip(data, pos, v);
        },
        Field::U64(v) => {
            lemma_le_bytes_len(v as nat, 8);
            law_u64_roundtrip(data, pos, v);
        },
        Field::Text(s) => {
            law_text_roundtrip(data, pos, s);
        },
        Field::Blob(b) => {
            law_blob_roundtrip(data, pos, b);
        },
        Field::TextList(l) => {
            law_text_list_roundtrip(data, pos, l);
        },
        _ => {},
    }
}

pub proof fn lemma_encode_fields_from_split(fields: Seq<Field>, i: int)
    requires
        0 <= i < fields.len(),
    ensures
        encode_fields_from(fields, i) == encode_field(fields[i]) + encode_fields_from(fields, i + 1),
{
}

/// Readable fields decode back to themselves, when read with their kinds.
pub proof fn law_fields_from_roundtrip(
    fields: Seq<Field>,
    i: int,
    data: Seq<u8>,
    pos: int,
    acc: Seq<Field>,
)
    requires
        0 <= i <= fields.len(),
        fields_readable(fields),
        0 <= pos,
        pos + encode_fields_from(fields, i).len() <= data.len(),
        data.subrange(pos, pos + encode_fields_from(fields, i).len()) == encode_fields_from(
            fields,
            i,
        ),
    ensures
        sp_fields_from(kinds_of(fields), i, data, pos, acc) == Decoded::<Seq<Field>>::Ok(
            (acc + fields.subrange(i, fields.len() as int), pos + encode_fields_from(fields, i).len()),
        ),
    decreases fields.len() - i,
{
    let kinds = kinds_of(fields);
    if i == fields.len() {
        assert(acc + fields.subrange(i, fields.len() as int) =~= acc);
    } else {
        let f = fields[i];
        let ef = encode_field(f);
        let rest = encode_fields_from(fields, i + 1);
        lemma_encode_fields_from_split(fields, i);
        let whole = encode_fields_from(fields, i);
        assert(whole == ef + rest);
        assert(whole.subrange(0, ef.len() as int) =~= ef);
        assert(whole.subrange(ef.len() as int, whole.len() as int) =~= rest);
        assert(data.subrange(pos, pos + ef.len()) =~= data.subrange(
            pos,
            pos + encode_fields_from(fields, i).len(),
        ).subrange(0, ef.len() as int));
        assert(field_readable(fields[i]));
        law_field_roundtrip(f, data, pos);
        assert(kinds[i] == kind_of(f));
        let q = pos + ef.len();
        assert(data.subrange(q, q + rest.len()) =~= data.subrange(
            pos,
            pos + encode_fields_from(fields, i).len(),
        ).subrange(ef.len() as int, (ef.len() + rest.len()) as int));
        law_fields_from_roundtrip(fields, i + 1, data, q, acc.push(f));
        assert(acc.push(f) + fields.subrange(i + 1, fields.len() as int) =~= acc + fields.subrange(
            i,
            fields.len() as int,
        ));
    }
}

/// Readable fields, written one after another, decode back to themselves.
pub proof fn law_fields_roundtrip(fields: Seq<Field>, data: Seq<u8>, pos: int)
    requires
        fields_readable(fields),
        0 <= pos,
        pos + encode_fields(fields).len() <= data.len(),
        data.subrange(pos, pos + encode_fields(fields).len()) == encode_fields(fields),
    ensures
        sp_fields(kinds_of(fields), data, pos) == Decoded::<Seq<Field>>::Ok(
            (fields, pos + encode_fields(fields).len()),
        ),
{
    law_fields_from_roundtrip(fields, 0, data, pos, Seq::empty());
    assert(Seq::<Field>::empty() + fields.subrange(0, fields.len() as int) =~= fields);
}


pub proof fn lemma_encode_fields_from_push(fields: Seq<Field>, f: Field, i: int)
    requires
        0 <= i <= fields.len(),
    ensures
        encode_fields_from(fields.push(f), i) == encode_fields_from(fields, i) + encode_field(f),
    decreases fields.len() - i,
{
    if i == fields.len() {
        reveal_with_fuel(encode_fields_from, 2);
        assert(encode_fields_from(fields.push(f), i) =~= encode_field(f));
        assert(encode_fields_from(fields, i) + encode_field(f) =~= encode_field(f));
    } else {
        lemma_encode_fields_from_push(fields, f, i + 1);
        assert(fields.push(f)[i] == fields[i]);
        assert(encode_fields_from(fields.push(f), i) =~= encode_fields_from(fields, i)
            + encode_field(f));
    }
}

/// Writing one more field appends its encoding.
pub proof fn lemma_encode_fields_push(fields: Seq<Field>, f: Field)
    ensures
        encode_fields(fields.push(f)) == encode_fields(fields) + encode_field(f),
{
    lemma_encode_fields_from_push(fields, f, 0);
}

/// Readable fields read back from the start of a longer payload.
pub proof fn law_fields_prefix_roundtrip(fields: Seq<Field>, data: Seq<u8>)
    requires
        fields_readable(fields),
        encode_fields(fields).len() <= data.len(),
        data.subrange(0, encode_fields(fields).len() as int) == encode_fields(fields),
    ensures
        sp_fields(kinds_of(fields), data, 0) == Decoded::<Seq<Field>>::Ok(
            (fields, encode_fields(fields).len() as int),
        ),
{
    law_fields_roundtrip(fields, data, 0);
}

} // verus!
