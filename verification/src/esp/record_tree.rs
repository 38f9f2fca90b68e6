//! The in-memory record tree of a plugin, used to write translations back:
//! fields, records, groups, their sizes and their byte form.
use vstd::prelude::*;
use crate::esp::header::{FieldHeader, GenericHeader, GrupHeader, RecordHeaderData};
use crate::bytes::{push_bytes, push_u16_le, push_u32_le, read_u16_le, read_u32_le, copy_range};

verus! {

/// A field as plain values: signature, stored size, data, XXXX marker.
pub struct FieldView {
    pub name: Seq<u8>,
    pub dsize: u16,
    pub buffer: Seq<u8>,
    pub is_xxxx: bool,
}

/// One field (sub-record) of a record.
#[derive(Clone, Debug)]
pub struct EspField {
    pub header: FieldHeader,
    pub buffer: Vec<u8>,
    /// Whether this is an `XXXX` field, which holds the size of the next field.
    pub is_size_xxxx: bool,
}

impl View for EspField {
    type V = FieldView;

    open spec fn view(&self) -> FieldView {
        FieldView { name: self.header.name@, dsize: self.header.dsize, buffer: self.buffer@, is_xxxx: self.is_size_xxxx }
    }
}

/// The views of a list of fields.
pub open spec fn fields_view(fs: Seq<EspField>) -> Seq<FieldView> {
    fs.map_values(|f: EspField| f@)
}

/// Fields decoded from `data` starting at `pos`. Each field is a 4-byte
/// signature, a 2-byte size and its data. An `XXXX` field's first four data
/// bytes give the size of the field that follows it; a field whose data runs
/// past the end is cut short; fewer than 6 remaining bytes end the list.
pub open spec fn spec_parse_fields(data: Seq<u8>, pos: int, next: Option<u32>) -> Seq<FieldView>
    decreases data.len() - pos,
{
    if pos < 0 || pos + 6 > data.len() {
        Seq::empty()
    } else {
        let sig = data.subrange(pos, pos + 4);
        let dsize = crate::bytes::le_u16(data, pos + 4);
        let p = pos + 6;
        let is_x = sig == crate::esp::header::sig_xxxx();
        let eff: int = if is_x { dsize as int } else if next is Some { next->0 as int } else { dsize as int };
        let read: int = if eff <= data.len() - p { eff } else { data.len() - p };
        let buf = data.subrange(p, p + read);
        let nnext = if is_x { if read >= 4 { Some(crate::bytes::le_u32(buf, 0)) } else { next } } else { None };
        seq![FieldView { name: sig, dsize: read as u16, buffer: buf, is_xxxx: is_x }]
            + spec_parse_fields(data, p + read, nnext)
    }
}

/// The bytes of one field: signature, stored size, data.
pub open spec fn field_bytes(f: FieldView) -> Seq<u8> {
    f.name + crate::bytes::u16_bytes(f.dsize) + f.buffer
}

/// The bytes of a list of fields, one after the other.
pub open spec fn fields_bytes(fs: Seq<FieldView>) -> Seq<u8>
    decreases fs.len(),
{
    if fs.len() == 0 {
        Seq::empty()
    } else {
        field_bytes(fs[0]) + fields_bytes(fs.drop_first())
    }
}

/// A field that needs no `XXXX` size: a 4-byte signature other than `XXXX`
/// and a stored size equal to its data length.
pub open spec fn plain_field(f: FieldView) -> bool {
    &&& f.name.len() == 4
    &&& f.name != crate::esp::header::sig_xxxx()
    &&& !f.is_xxxx
    &&& f.dsize as int == f.buffer.len()
}

proof fn lemma_fields_bytes_push(fs: Seq<FieldView>, f: FieldView)
    ensures
        fields_bytes(fs.push(f)) == fields_bytes(fs) + field_bytes(f),
    decreases fs.len(),
{
    if fs.len() == 0 {
        assert(fs.push(f).drop_first() =~= Seq::<FieldView>::empty());
        assert(fs.push(f)[0] == f);
        assert(fields_bytes(fs.push(f)) == field_bytes(f) + fields_bytes(Seq::<FieldView>::empty()));
        assert(fields_bytes(fs.push(f)) =~= field_bytes(f));
    } else {
        lemma_fields_bytes_push(fs.drop_first(), f);
        assert(fs.push(f).drop_first() =~= fs.drop_first().push(f));
        assert(fields_bytes(fs.push(f)) =~= fields_bytes(fs) + field_bytes(f));
    }
}

/// Writing plain fields and reading the bytes back gives the same fields.
pub proof fn lemma_plain_fields_roundtrip(fs: Seq<FieldView>, rest: Seq<u8>)
    requires
        forall|i: int| 0 <= i < fs.len() ==> plain_field(#[trigger] fs[i]),
        rest.len() < 6,
    ensures
        spec_parse_fields(fields_bytes(fs) + rest, 0, None) == fs,
    decreases fs.len(),
{
    let data = fields_bytes(fs) + rest;
    if fs.len() == 0 {
        assert(data =~= rest);
    } else {
        let f = fs[0];
        assert(plain_field(f));
        let tail = fields_bytes(fs.drop_first()) + rest;
        assert(data =~= field_bytes(f) + tail);
        let n = f.buffer.len() as int;
        assert(data.subrange(0, 4) =~= f.name);
        assert(crate::bytes::le_u16(data, 4) == f.dsize) by {
            assert(data[4] == crate::bytes::u16_bytes(f.dsize)[0]);
            assert(data[5] == crate::bytes::u16_bytes(f.dsize)[1]);
        }
        assert(field_bytes(f).len() == 6 + n);
        assert(data.subrange(6, 6 + n) =~= f.buffer);
        assert(data.subrange(6 + n, data.len() as int) =~= tail);
        assert forall|i: int| 0 <= i < fs.drop_first().len() implies plain_field(#[trigger] fs.drop_first()[i]) by {
            assert(fs.drop_first()[i] == fs[i + 1]);
        }
        lemma_plain_fields_roundtrip(fs.drop_first(), rest);
        lemma_parse_shift(data, 6 + n, tail);
        assert(spec_parse_fields(data, 0, None) =~= seq![f] + spec_parse_fields(data, 6 + n, None));
        assert(fs =~= seq![f] + fs.drop_first());
    }
}

/// Parsing from position `k` of `prefix + tail` is parsing `tail` from 0.
proof fn lemma_parse_shift(data: Seq<u8>, k: int, tail: Seq<u8>)
    requires
        0 <= k <= data.len(),
        data.subrange(k, data.len() as int) == tail,
    ensures
        spec_parse_fields(data, k, None) == spec_parse_fields(tail, 0, None),
{
    lemma_parse_shift_gen(data, k, tail, None);
}

proof fn lemma_parse_shift_gen(data: Seq<u8>, k: int, tail: Seq<u8>, next: Option<u32>)
    requires
        0 <= k <= data.len(),
        data.subrange(k, data.len() as int) == tail,
    ensures
        spec_parse_fields(data, k, next) == spec_parse_fields(tail, 0, next),
    decreases data.len() - k,
{
    if k + 6 <= data.len() {
        let sig = data.subrange(k, k + 4);
        assert(sig =~= tail.subrange(0, 4));
        assert(data[k + 4] == tail[4]);
        assert(data[k + 5] == tail[5]);
        let dsize = crate::bytes::le_u16(data, k + 4);
        let p = k + 6;
        let is_x = sig == crate::esp::header::sig_xxxx();
        let eff: int = if is_x { dsize as int } else if next is Some { next->0 as int } else { dsize as int };
        let read: int = if eff <= data.len() - p { eff } else { data.len() - p };
        assert(data.subrange(p, p + read) =~= tail.subrange(6, 6 + read));
        let buf = data.subrange(p, p + read);
        let nnext = if is_x { if read >= 4 { Some(crate::bytes::le_u32(buf, 0)) } else { next } } else { None };
        assert(data.subrange(p + read, data.len() as int) =~= tail.subrange(6 + read, tail.len() as int));
        lemma_parse_shift_gen(data, p + read, tail.subrange(6 + read, tail.len() as int), nnext);
        lemma_parse_shift_gen(tail, 6 + read, tail.subrange(6 + read, tail.len() as int), nnext);
    }
}

impl EspField {
    /// Decodes the fields of a record's data (see [`spec_parse_fields`]).
    pub fn parse_fields(data: &[u8]) -> (r: Vec<EspField>)
        ensures
            fields_view(r@) == spec_parse_fields(data@, 0, None),
    {
        let mut pos: usize = 0;
        let mut fields: Vec<EspField> = Vec::new();
        let mut next: Option<u32> = None;
        let ghost mut acc: Seq<FieldView> = Seq::empty();
        while pos < data.len() && data.len() - pos >= 6
            invariant
                pos <= data@.len(),
                fields_view(fields@) + spec_parse_fields(data@, pos as int, next) == spec_parse_fields(data@, 0, None),
            decreases data@.len() - pos,
        {
            let name = [data[pos], data[pos + 1], data[pos + 2], data[pos + 3]];
            let dsize = read_u16_le(data, pos + 4) as usize;
            let ghost old_next = next;
            let is_x = name[0] == 0x58 && name[1] == 0x58 && name[2] == 0x58 && name[3] == 0x58;
            assert(name@ =~= data@.subrange(pos as int, pos + 4));
            assert(is_x == (name@ == crate::esp::header::sig_xxxx())) by {
                if name@ == crate::esp::header::sig_xxxx() {
                    assert(name@[0] == 0x58u8);
                    assert(name@[1] == 0x58u8);
                    assert(name@[2] == 0x58u8);
                    assert(name@[3] == 0x58u8);
                }
                if is_x {
                    assert(name@ =~= crate::esp::header::sig_xxxx());
                }
            }
            pos = pos + 6;
            let effective: usize = if is_x {
                dsize
            } else {
                match next {
                    Some(n) => {
                        next = None;
                        n as usize
                    },
                    None => dsize,
                }
            };
            let remaining = data.len() - pos;
            let read = if effective <= remaining { effective } else { remaining };
            let buffer = copy_range(data, pos, pos + read);
            pos = pos + read;
            if is_x && buffer.len() >= 4 {
                next = Some(read_u32_le(buffer.as_slice(), 0));
            }
            let field = EspField { header: FieldHeader { name, dsize: read as u16 }, buffer, is_size_xxxx: is_x };
            let ghost fv = field@;
            let ghost before = fields@;
            fields.push(field);
            proof {
                assert(fields_view(fields@) =~= fields_view(before).push(fv));
                let start = pos - 6 - read;
                assert(spec_parse_fields(data@, start, old_next) =~= seq![fv] + spec_parse_fields(data@, pos as int, next));
                assert(fields_view(fields@) + spec_parse_fields(data@, pos as int, next) =~= fields_view(before) + spec_parse_fields(data@, start, old_next));
            }
        }
        proof {
            assert(spec_parse_fields(data@, pos as int, next) =~= Seq::<FieldView>::empty());
        }
        assert(fields_view(fields@) =~= fields_view(fields@) + Seq::<FieldView>::empty());
        fields
    }

    /// Header and data size: `6 + buffer.len()`.
    pub fn serialized_size(&self) -> (r: usize)
        requires
            self.buffer@.len() + 6 <= usize::MAX,
        ensures
            r == 6 + self.buffer@.len(),
    {
        6 + self.buffer.len()
    }

    /// Appends this field's bytes (see [`field_bytes`]).
    pub fn write_to(&self, out: &mut Vec<u8>)
        ensures
            final(out)@ == old(out)@ + field_bytes(self@),
    {
        push_bytes(out, &self.header.name);
        push_u16_le(out, self.header.dsize);
        push_bytes(out, self.buffer.as_slice());
        assert(final(out)@ =~= old(out)@ + field_bytes(self@));
    }
}

/// The bytes of a list of fields.
pub fn write_fields(fields: &Vec<EspField>) -> (r: Vec<u8>)
    ensures
        r@ == fields_bytes(fields_view(fields@)),
{
    let mut out: Vec<u8> = Vec::new();
    let mut i: usize = 0;
    while i < fields.len()
        invariant
            i <= fields@.len(),
            out@ == fields_bytes(fields_view(fields@.take(i as int))),
        decreases fields@.len() - i,
    {
        fields[i].write_to(&mut out);
        proof {
            lemma_fields_bytes_push(fields_view(fields@.take(i as int)), fields@[i as int]@);
            assert(fields_view(fields@.take(i + 1)) =~= fields_view(fields@.take(i as int)).push(fields@[i as int]@));
        }
        i = i + 1;
    }
    assert(fields@.take(fields@.len() as int) =~= fields@);
    out
}


/// An `XXXX` field announcing a following field of `size` bytes.
pub open spec fn xxxx_field(size: u32) -> FieldView {
    FieldView { name: crate::esp::header::sig_xxxx(), dsize: 4, buffer: crate::bytes::u32_bytes(size), is_xxxx: true }
}

/// The fields after `XXXX` management: every field of more than 65535 bytes
/// gets an `XXXX` field holding its size right before it (an `XXXX` field
/// already there is updated, else one is inserted), and an `XXXX` field right
/// before a field that no longer needs it is removed. Other `XXXX` fields stay.
pub open spec fn spec_manage_xxxx(fs: Seq<FieldView>) -> Seq<FieldView>
    decreases fs.len(),
{
    if fs.len() == 0 {
        Seq::empty()
    } else if fs[0].is_xxxx && fs.len() >= 2 && !fs[1].is_xxxx {
        let f1 = fs[1];
        if f1.buffer.len() > 65535 {
            seq![FieldView { dsize: 4, buffer: crate::bytes::u32_bytes(f1.buffer.len() as u32), ..fs[0] }, f1]
                + spec_manage_xxxx(fs.skip(2))
        } else {
            seq![f1] + spec_manage_xxxx(fs.skip(2))
        }
    } else if !fs[0].is_xxxx && fs[0].buffer.len() > 65535 {
        seq![xxxx_field(fs[0].buffer.len() as u32), fs[0]] + spec_manage_xxxx(fs.skip(1))
    } else {
        seq![fs[0]] + spec_manage_xxxx(fs.skip(1))
    }
}

/// A copy of a byte vector.
pub fn copy_bytes(v: &Vec<u8>) -> (r: Vec<u8>)
    ensures
        r@ == v@,
{
    copy_range(v.as_slice(), 0, v.len())
}

/// A copy of a field.
pub fn copy_field(f: &EspField) -> (r: EspField)
    ensures
        r@ == f@,
{
    EspField { header: f.header, buffer: copy_bytes(&f.buffer), is_size_xxxx: f.is_size_xxxx }
}

/// The four bytes of `v` as a vector.
fn u32_vec(v: u32) -> (r: Vec<u8>)
    ensures
        r@ == crate::bytes::u32_bytes(v),
{
    let mut out: Vec<u8> = Vec::new();
    push_u32_le(&mut out, v);
    assert(out@ =~= crate::bytes::u32_bytes(v));
    out
}

/// Fields with `XXXX` management applied (see [`spec_manage_xxxx`]).
pub fn manage_xxxx(fields: &Vec<EspField>) -> (r: Vec<EspField>)
    ensures
        fields_view(r@) == spec_manage_xxxx(fields_view(fields@)),
{
    let ghost fs = fields_view(fields@);
    let mut out: Vec<EspField> = Vec::new();
    let mut k: usize = 0;
    let n = fields.len();
    assert(fs.skip(0) =~= fs);
    assert(fields_view(out@) + spec_manage_xxxx(fs.skip(0)) =~= spec_manage_xxxx(fs));
    while k < n
        invariant
            k <= n,
            n == fields@.len(),
            fs == fields_view(fields@),
            fields_view(out@) + spec_manage_xxxx(fs.skip(k as int)) == spec_manage_xxxx(fs),
        decreases n - k,
    {
        let ghost before = out@;
        let ghost rest = fs.skip(k as int);
        assert(rest[0] == fields@[k as int]@);
        if fields[k].is_size_xxxx && k + 1 < n && !fields[k + 1].is_size_xxxx {
            assert(rest[1] == fields@[k + 1]@);
            let len = fields[k + 1].buffer.len();
            if len > 65535 {
                let x = EspField {
                    header: FieldHeader { name: fields[k].header.name, dsize: 4 },
                    buffer: u32_vec(len as u32),
                    is_size_xxxx: true,
                };
                out.push(x);
            }
            out.push(copy_field(&fields[k + 1]));
            proof {
                assert(rest.skip(2) =~= fs.skip(k + 2));
            }
            k = k + 2;
            proof {
                assert(fields_view(out@) + spec_manage_xxxx(fs.skip(k as int)) =~= fields_view(before) + spec_manage_xxxx(rest));
            }
        } else {
            if !fields[k].is_size_xxxx && fields[k].buffer.len() > 65535 {
                let x = EspField {
                    header: FieldHeader { name: [0x58u8, 0x58, 0x58, 0x58], dsize: 4 },
                    buffer: u32_vec(fields[k].buffer.len() as u32),
                    is_size_xxxx: true,
                };
                assert(x.header.name@ =~= crate::esp::header::sig_xxxx());
                out.push(x);
            }
            out.push(copy_field(&fields[k]));
            proof {
                assert(rest.skip(1) =~= fs.skip(k + 1));
            }
            k = k + 1;
            proof {
                assert(fields_view(out@) + spec_manage_xxxx(fs.skip(k as int)) =~= fields_view(before) + spec_manage_xxxx(rest));
            }
        }
    }
    assert(fs.skip(n as int) =~= Seq::<FieldView>::empty());
    assert(fields_view(out@) =~= fields_view(out@) + Seq::<FieldView>::empty());
    out
}


/// The zlib stream (RFC 1950) that `flate2`'s encoder writes for `data` at its
/// fast compression level.
pub uninterp spec fn zlib_fast(data: Seq<u8>) -> Seq<u8>;

/// `flate2::write::ZlibEncoder` at `Compression::fast()`, fed `data` and
/// finished. Claims only that a successful result is the encoder's stream for
/// `data`; whether it succeeds is left to the encoder.
#[verifier::external_body]
fn compress_zlib(data: &[u8]) -> (r: Option<Vec<u8>>)
    ensures
        r matches Some(c) ==> c@ == zlib_fast(data@),
{
    let mut encoder = flate2::write::ZlibEncoder::new(Vec::new(), flate2::Compression::fast());
    std::io::Write::write_all(&mut encoder, data).ok()?;
    encoder.finish().ok()
}

/// Why a record or group could not be rebuilt.
#[derive(Clone, Copy, Debug, PartialEq, Eq)]
pub enum RebuildError {
    /// The zlib encoder failed.
    CompressionFailed,
    /// A group would be larger than its 32-bit size field can hold.
    SizeOverflow,
}

/// One record (such as `INFO`, `NPC_`) with its fields.
#[derive(Clone, Debug)]
pub struct EspRecord {
    pub header: GenericHeader,
    pub record_header_data: RecordHeaderData,
    pub fields: Vec<EspField>,
    /// Whether the record data is zlib-compressed in the file.
    pub compressed: bool,
    /// Whether the record is passed through undecoded.
    pub raw: bool,
    pub form_id: u32,
    pub editor_id: Option<String>,
    /// The stored data of raw records, and the rebuilt data of compressed ones.
    pub original_raw_data: Vec<u8>,
}

/// The stored form of compressed record data: the uncompressed size, then
/// the zlib stream.
pub open spec fn compressed_block(data: Seq<u8>) -> Seq<u8> {
    crate::bytes::u32_bytes(data.len() as u32) + zlib_fast(data)
}

impl EspRecord {
    /// Rebuilds the record data from its fields: `XXXX` fields are managed
    /// (see [`spec_manage_xxxx`]), the data size is recomputed, and compressed
    /// records get their compressed block rebuilt. Raw records are left alone.
    pub fn rebuild_data(&mut self) -> (r: Result<(), RebuildError>)
        ensures
            r is Ok ==> record_rebuilt(*final(self), *old(self)),
            old(self).raw ==> *final(self) == *old(self) && r is Ok,
            !old(self).raw ==> {
                let fs = spec_manage_xxxx(fields_view(old(self).fields@));
                let data = fields_bytes(fs);
                &&& fields_view(final(self).fields@) == fs
                &&& final(self).record_header_data == old(self).record_header_data
                &&& final(self).header.name == old(self).header.name
                &&& final(self).compressed == old(self).compressed
                &&& final(self).raw == old(self).raw
                &&& final(self).form_id == old(self).form_id
                &&& final(self).editor_id == old(self).editor_id
                &&& (!old(self).compressed ==> r is Ok
                        && final(self).header.dsize == data.len() as u32
                        && final(self).original_raw_data == old(self).original_raw_data)
                &&& (old(self).compressed && r is Ok ==>
                        final(self).original_raw_data@ == compressed_block(data)
                        && final(self).header.dsize == compressed_block(data).len() as u32)
                &&& (old(self).compressed && r is Err ==>
                        final(self).header == old(self).header
                        && final(self).original_raw_data == old(self).original_raw_data)
            },
    {
        if self.raw {
            return Ok(());
        }
        let managed = manage_xxxx(&self.fields);
        self.fields = managed;
        let data = write_fields(&self.fields);
        if self.compressed {
            let decompressed_size = data.len() as u32;
            match compress_zlib(data.as_slice()) {
                None => Err(RebuildError::CompressionFailed),
                Some(c) => {
                    let mut output: Vec<u8> = Vec::new();
                    push_u32_le(&mut output, decompressed_size);
                    push_bytes(&mut output, c.as_slice());
                    self.header.dsize = output.len() as u32;
                    self.original_raw_data = output;
                    Ok(())
                },
            }
        } else {
            self.header.dsize = data.len() as u32;
            Ok(())
        }
    }

    /// The record data as it is written: the stored block for raw and
    /// compressed records, the field bytes otherwise.
    pub fn get_serialized_data(&self) -> (r: Vec<u8>)
        ensures
            (self.raw || self.compressed) ==> r@ == self.original_raw_data@,
            !(self.raw || self.compressed) ==> r@ == fields_bytes(fields_view(self.fields@)),
    {
        if self.raw || self.compressed {
            return copy_bytes(&self.original_raw_data);
        }
        write_fields(&self.fields)
    }

    /// Size of the record as written: 24 header bytes and the data size.
    pub fn serialized_size(&self) -> (r: usize)
        requires
            24 + self.header.dsize <= usize::MAX,
        ensures
            r == 24 + self.header.dsize,
    {
        24 + self.header.dsize as usize
    }

    /// Appends the record: generic header, record header data, then the data.
    pub fn write_to(&self, out: &mut Vec<u8>)
        ensures
            final(out)@ == old(out)@ + record_bytes(*self),
    {
        push_bytes(out, &self.header.name);
        push_u32_le(out, self.header.dsize);
        push_u32_le(out, self.record_header_data.flags);
        push_u32_le(out, self.record_header_data.form_id);
        push_u32_le(out, self.record_header_data.version);
        push_u16_le(out, self.record_header_data.f_version);
        push_u16_le(out, self.record_header_data.v_info);
        let data = self.get_serialized_data();
        push_bytes(out, data.as_slice());
        assert(final(out)@ =~= old(out)@ + record_bytes(*self));
    }
}

/// The 16 bytes of record header data.
pub open spec fn record_header_bytes(h: RecordHeaderData) -> Seq<u8> {
    crate::bytes::u32_bytes(h.flags) + crate::bytes::u32_bytes(h.form_id) + crate::bytes::u32_bytes(h.version)
        + crate::bytes::u16_bytes(h.f_version) + crate::bytes::u16_bytes(h.v_info)
}

/// The bytes of a record as written.
pub open spec fn record_bytes(r: EspRecord) -> Seq<u8> {
    r.header.name@ + crate::bytes::u32_bytes(r.header.dsize) + record_header_bytes(r.record_header_data)
        + (if r.raw || r.compressed { r.original_raw_data@ } else { fields_bytes(fields_view(r.fields@)) })
}


/// A group: header, records and nested groups.
#[derive(Debug)]
pub struct EspGrup {
    pub header: GenericHeader,
    pub grup_header: GrupHeader,
    pub records: Vec<EspRecord>,
    pub children: Vec<EspGrup>,
}

/// Sum of the written sizes (24 + data size) of records.
pub open spec fn records_size(rs: Seq<EspRecord>) -> int
    decreases rs.len(),
{
    if rs.len() == 0 {
        0
    } else {
        records_size(rs.drop_last()) + 24 + rs.last().header.dsize
    }
}

/// The written size of a group: its 24 header bytes, its records and, in
/// full, its nested groups.
pub open spec fn grup_size(g: EspGrup) -> int
    decreases g, 1int, 0int,
{
    24 + records_size(g.records@) + children_size(g, g.children@.len() as int)
}

/// The written sizes of the first `n` nested groups of `g`.
pub open spec fn children_size(g: EspGrup, n: int) -> int
    decreases g, 0int, n,
{
    if n <= 0 || n > g.children@.len() {
        0
    } else {
        children_size(g, n - 1) + grup_size(g.children[n - 1])
    }
}

/// `new` is `old` with the size of every group, at every depth, set to its
/// written size.
pub open spec fn resized(new: EspGrup, old: EspGrup) -> bool
    decreases old,
{
    &&& new.header.name == old.header.name
    &&& new.header.dsize == grup_size(old)
    &&& new.grup_header == old.grup_header
    &&& new.records == old.records
    &&& new.children@.len() == old.children@.len()
    &&& forall|i: int| 0 <= i < old.children@.len() ==> resized(#[trigger] new.children[i], old.children[i])
}

proof fn lemma_records_size_nonneg(rs: Seq<EspRecord>)
    ensures
        records_size(rs) >= 0,
    decreases rs.len(),
{
    if rs.len() > 0 {
        lemma_records_size_nonneg(rs.drop_last());
    }
}

proof fn lemma_children_size(g: EspGrup, n: int)
    ensures
        children_size(g, n) >= 0,
        forall|k: int| 0 <= k < n && n <= g.children@.len() ==> grup_size(#[trigger] g.children[k]) <= children_size(g, n),
    decreases n,
{
    if n > 0 && n <= g.children@.len() {
        lemma_children_size(g, n - 1);
        lemma_grup_size_pos(g.children[n - 1]);
    }
}

proof fn lemma_grup_size_pos(g: EspGrup)
    ensures
        grup_size(g) >= 24,
    decreases g,
{
    lemma_records_size_nonneg(g.records@);
    lemma_children_size_nonneg(g, g.children@.len() as int);
}

proof fn lemma_children_size_nonneg(g: EspGrup, n: int)
    ensures
        children_size(g, n) >= 0,
    decreases g, n,
{
    if n > 0 && n <= g.children@.len() {
        lemma_children_size_nonneg(g, n - 1);
        lemma_grup_size_pos(g.children[n - 1]);
    }
}

impl EspGrup {
    /// Sets the size of this group and of every nested group to its written
    /// size (see [`grup_size`]).
    pub fn recalculate_size(&mut self)
        requires
            grup_size(*old(self)) <= u32::MAX,
        ensures
            resized(*final(self), *old(self)),
        decreases *old(self),
    {
        let ghost old_self = *self;
        let mut total: u32 = 24;
        let mut i: usize = 0;
        proof {
            lemma_records_size_nonneg(self.records@);
            lemma_children_size_nonneg(*self, self.children@.len() as int);
            assert forall|j: int| 0 <= j <= self.records@.len() implies records_size(#[trigger] self.records@.take(j)) <= records_size(self.records@) by {
                lemma_records_size_prefix(self.records@, j);
            }
        }
        while i < self.records.len()
            invariant
                i <= self.records@.len(),
                self.records@ == old_self.records@,
                total == 24 + records_size(self.records@.take(i as int)),
                grup_size(old_self) <= u32::MAX,
                grup_size(old_self) == 24 + records_size(old_self.records@) + children_size(old_self, old_self.children@.len() as int),
                children_size(old_self, old_self.children@.len() as int) >= 0,
                forall|j: int| 0 <= j <= self.records@.len() ==> records_size(#[trigger] self.records@.take(j)) <= records_size(self.records@),
            decreases self.records@.len() - i,
        {
            assert(self.records@.take(i + 1).drop_last() =~= self.records@.take(i as int));
            assert(records_size(self.records@.take(i + 1)) <= records_size(self.records@));
            total = total + 24 + self.records[i].header.dsize;
            i = i + 1;
        }
        assert(self.records@.take(self.records@.len() as int) =~= self.records@);
        let mut j: usize = 0;
        let n = self.children.len();
        while j < n
            invariant
                j <= n,
                old_self == *old(self),
                n == old_self.children@.len(),
                self.children@.len() == n,
                self.header.name == old_self.header.name,
                self.grup_header == old_self.grup_header,
                self.records == old_self.records,
                grup_size(old_self) <= u32::MAX,
                grup_size(old_self) == 24 + records_size(old_self.records@) + children_size(old_self, n as int),
                total == 24 + records_size(old_self.records@) + children_size(old_self, j as int),
                forall|k: int| 0 <= k < j ==> resized(#[trigger] self.children[k], old_self.children[k]),
                forall|k: int| j <= k < n ==> #[trigger] self.children[k] == old_self.children[k],
            decreases n - j,
        {
            proof {
                lemma_children_size(old_self, n as int);
                lemma_children_size(old_self, j + 1);
                lemma_children_size_nonneg(old_self, j as int);
                assert(children_size(old_self, j + 1) <= children_size(old_self, n as int)) by {
                    lemma_children_size_mono(old_self, j + 1, n as int);
                }
            }
            proof {
                assert(decreases_to!(old_self => old_self.children));
                assert(decreases_to!(old_self.children => old_self.children[j as int]));
                assert(self.children[j as int] == old_self.children[j as int]);
                assert(decreases_to!(old_self => self.children[j as int]));
                assert(old_self == *old(self));
                assert(decreases_to!(*old(self) => self.children[j as int]));
            }
            self.children[j].recalculate_size();
            total = total + self.children[j].header.dsize;
            j = j + 1;
        }
        self.header.dsize = total;
    }
}

proof fn lemma_records_size_prefix(rs: Seq<EspRecord>, j: int)
    requires
        0 <= j <= rs.len(),
    ensures
        records_size(rs.take(j)) <= records_size(rs),
    decreases rs.len() - j,
{
    if j < rs.len() {
        lemma_records_size_prefix(rs, j + 1);
        assert(rs.take(j + 1).drop_last() =~= rs.take(j));
    } else {
        assert(rs.take(j) =~= rs);
    }
}

proof fn lemma_children_size_mono(g: EspGrup, a: int, b: int)
    requires
        0 <= a <= b <= g.children@.len(),
    ensures
        children_size(g, a) <= children_size(g, b),
    decreases b - a,
{
    if a < b {
        lemma_children_size_mono(g, a, b - 1);
        lemma_grup_size_pos(g.children[b - 1]);
    }
}


/// `new` is `old` after a successful [`EspRecord::rebuild_data`].
pub open spec fn record_rebuilt(new: EspRecord, old: EspRecord) -> bool {
    if old.raw {
        new == old
    } else {
        let fs = spec_manage_xxxx(fields_view(old.fields@));
        let data = fields_bytes(fs);
        &&& fields_view(new.fields@) == fs
        &&& new.record_header_data == old.record_header_data
        &&& new.header.name == old.header.name
        &&& new.compressed == old.compressed
        &&& new.raw == old.raw
        &&& new.form_id == old.form_id
        &&& new.editor_id == old.editor_id
        &&& (!old.compressed ==> new.header.dsize == data.len() as u32
                && new.original_raw_data == old.original_raw_data)
        &&& (old.compressed ==> new.original_raw_data@ == compressed_block(data)
                && new.header.dsize == compressed_block(data).len() as u32)
    }
}

/// `new` is `old` after a successful rebuild: every record rebuilt, every
/// nested group rebuilt, and the size set to the written size.
pub open spec fn grup_rebuilt(new: EspGrup, old: EspGrup) -> bool
    decreases old,
{
    &&& new.header.name == old.header.name
    &&& new.grup_header == old.grup_header
    &&& new.records@.len() == old.records@.len()
    &&& forall|i: int| 0 <= i < old.records@.len() ==> record_rebuilt(#[trigger] new.records[i], old.records[i])
    &&& new.children@.len() == old.children@.len()
    &&& forall|i: int| 0 <= i < old.children@.len() ==> grup_rebuilt(#[trigger] new.children[i], old.children[i])
    &&& new.header.dsize == grup_size(new)
}

/// Whether rebuilding a record compresses data: a compressed record that is
/// not kept raw.
pub open spec fn record_needs_compression(r: EspRecord) -> bool {
    !r.raw && r.compressed
}

/// Whether rebuilding a group compresses data: one of its records, or one
/// of the records of its nested groups, needs compression.
pub open spec fn needs_compression(g: EspGrup) -> bool
    decreases g, 1int, 0int,
{
    (exists|i: int| 0 <= i < g.records@.len() && record_needs_compression(#[trigger] g.records[i]))
        || children_need(g, g.children@.len() as int)
}

/// Whether one of the first `n` nested groups of `g` needs compression.
pub open spec fn children_need(g: EspGrup, n: int) -> bool
    decreases g, 0int, n,
{
    if n <= 0 || n > g.children@.len() { false } else { children_need(g, n - 1) || needs_compression(g.children[n - 1]) }
}

/// The data size a record has after [`EspRecord::rebuild_data`] (see
/// [`record_rebuilt`]).
pub open spec fn rebuilt_dsize(r: EspRecord) -> u32 {
    if r.raw {
        r.header.dsize
    } else {
        let data = fields_bytes(spec_manage_xxxx(fields_view(r.fields@)));
        if r.compressed { compressed_block(data).len() as u32 } else { data.len() as u32 }
    }
}

/// The written size of records once rebuilt.
pub open spec fn rebuilt_records_size(rs: Seq<EspRecord>) -> int
    decreases rs.len(),
{
    if rs.len() == 0 { 0 } else { rebuilt_records_size(rs.drop_last()) + 24 + rebuilt_dsize(rs.last()) }
}

/// The written size of a group once it is rebuilt.
pub open spec fn rebuilt_size(g: EspGrup) -> int
    decreases g, 1int, 0int,
{
    24 + rebuilt_records_size(g.records@) + rebuilt_children_size(g, g.children@.len() as int)
}

/// The written sizes of the first `n` nested groups of `g` once rebuilt.
pub open spec fn rebuilt_children_size(g: EspGrup, n: int) -> int
    decreases g, 0int, n,
{
    if n <= 0 || n > g.children@.len() { 0 } else { rebuilt_children_size(g, n - 1) + rebuilt_size(g.children[n - 1]) }
}

/// Whether the rebuilt sizes of a group and of every nested group fit in
/// their 32-bit size fields.
pub open spec fn rebuild_fits(g: EspGrup) -> bool
    decreases g, 1int, 0int,
{
    rebuilt_size(g) <= u32::MAX && children_fit(g, g.children@.len() as int)
}

/// Whether the first `n` nested groups of `g` fit once rebuilt (see [`rebuild_fits`]).
pub open spec fn children_fit(g: EspGrup, n: int) -> bool
    decreases g, 0int, n,
{
    if n <= 0 || n > g.children@.len() { true } else { children_fit(g, n - 1) && rebuild_fits(g.children[n - 1]) }
}

proof fn lemma_records_rebuilt(new: Seq<EspRecord>, old: Seq<EspRecord>)
    requires
        new.len() == old.len(),
        forall|i: int| 0 <= i < old.len() ==> record_rebuilt(#[trigger] new[i], old[i]),
    ensures
        records_size(new) == rebuilt_records_size(old),
    decreases old.len(),
{
    if old.len() > 0 {
        let k = old.len() - 1;
        assert(record_rebuilt(new[k], old[k]));
        assert forall|i: int| 0 <= i < old.drop_last().len() implies record_rebuilt(#[trigger] new.drop_last()[i], old.drop_last()[i]) by {
            assert(record_rebuilt(new[i], old[i]));
        }
        lemma_records_rebuilt(new.drop_last(), old.drop_last());
    }
}

proof fn lemma_grup_rebuilt_size(new: EspGrup, old: EspGrup)
    requires
        grup_rebuilt(new, old),
    ensures
        grup_size(new) == rebuilt_size(old),
        rebuild_fits(old),
    decreases old, 1int, 0int,
{
    lemma_records_rebuilt(new.records@, old.records@);
    lemma_children_rebuilt(new, old, old.children@.len() as int);
}

proof fn lemma_children_rebuilt(new: EspGrup, old: EspGrup, n: int)
    requires
        0 <= n <= old.children@.len(),
        new.children@.len() == old.children@.len(),
        forall|k: int| 0 <= k < n ==> grup_rebuilt(#[trigger] new.children[k], old.children[k]),
    ensures
        children_size(new, n) == rebuilt_children_size(old, n),
        children_fit(old, n),
    decreases old, 0int, n,
{
    if n > 0 {
        lemma_children_rebuilt(new, old, n - 1);
        assert(grup_rebuilt(new.children[n - 1], old.children[n - 1]));
        assert(decreases_to!(old => old.children));
        assert(decreases_to!(old.children => old.children[n - 1]));
        lemma_grup_rebuilt_size(new.children[n - 1], old.children[n - 1]);
    }
}

proof fn lemma_child_needs(g: EspGrup, j: int, n: int)
    requires
        0 <= j < n <= g.children@.len(),
        needs_compression(g.children[j]),
    ensures
        children_need(g, n),
    decreases n,
{
    if j < n - 1 {
        lemma_child_needs(g, j, n - 1);
    }
}

proof fn lemma_child_fits(g: EspGrup, j: int, n: int)
    requires
        0 <= j < n <= g.children@.len(),
        children_fit(g, n),
    ensures
        rebuild_fits(g.children[j]),
    decreases n,
{
    if j < n - 1 {
        lemma_child_fits(g, j, n - 1);
    }
}

impl EspGrup {
    /// Rebuilds every record and nested group, then sets the size. Fails
    /// with `SizeOverflow` only when a rebuilt size does not fit in 32 bits
    /// (see [`rebuild_fits`]), and with `CompressionFailed` only when some
    /// record needs compressing (see [`needs_compression`]) and the encoder
    /// fails; succeeds whenever the sizes fit and nothing is compressed.
    pub fn rebuild(&mut self) -> (r: Result<(), RebuildError>)
        ensures
            r is Ok ==> grup_rebuilt(*final(self), *old(self)) && rebuild_fits(*old(self)),
            r matches Err(RebuildError::SizeOverflow) ==> !rebuild_fits(*old(self)),
            r matches Err(RebuildError::CompressionFailed) ==> needs_compression(*old(self)),
            rebuild_fits(*old(self)) && !needs_compression(*old(self)) ==> r is Ok,
        decreases *old(self),
    {
        let ghost old_self = *self;
        let mut i: usize = 0;
        let nr = self.records.len();
        while i < nr
            invariant
                i <= nr,
                old_self == *old(self),
                nr == old_self.records@.len(),
                self.records@.len() == nr,
                self.header == old_self.header,
                self.grup_header == old_self.grup_header,
                self.children == old_self.children,
                forall|k: int| 0 <= k < i ==> record_rebuilt(#[trigger] self.records[k], old_self.records[k]),
                forall|k: int| i <= k < nr ==> #[trigger] self.records[k] == old_self.records[k],
            decreases nr - i,
        {
            let res = self.records[i].rebuild_data();
            if res.is_err() {
                proof {
                    assert(record_needs_compression(old_self.records[i as int]));
                    assert(needs_compression(old_self));
                }
                return Err(RebuildError::CompressionFailed);
            }
            i = i + 1;
        }
        let mut j: usize = 0;
        let n = self.children.len();
        while j < n
            invariant
                j <= n,
                old_self == *old(self),
                n == old_self.children@.len(),
                self.children@.len() == n,
                self.header == old_self.header,
                self.grup_header == old_self.grup_header,
                self.records@.len() == nr,
                nr == old_self.records@.len(),
                forall|k: int| 0 <= k < nr ==> record_rebuilt(#[trigger] self.records[k], old_self.records[k]),
                forall|k: int| 0 <= k < j ==> grup_rebuilt(#[trigger] self.children[k], old_self.children[k]),
                forall|k: int| j <= k < n ==> #[trigger] self.children[k] == old_self.children[k],
            decreases n - j,
        {
            proof {
                assert(decreases_to!(old_self => old_self.children));
                assert(decreases_to!(old_self.children => old_self.children[j as int]));
                assert(self.children[j as int] == old_self.children[j as int]);
                assert(decreases_to!(*old(self) => self.children[j as int]));
            }
            let res = self.children[j].rebuild();
            if res.is_err() {
                proof {
                    match res {
                        Err(RebuildError::SizeOverflow) => {
                            if children_fit(old_self, n as int) {
                                lemma_child_fits(old_self, j as int, n as int);
                            }
                        },
                        Err(RebuildError::CompressionFailed) => {
                            lemma_child_needs(old_self, j as int, n as int);
                        },
                        Ok(_) => {},
                    }
                }
                return res;
            }
            j = j + 1;
        }
        proof {
            lemma_records_rebuilt(self.records@, old_self.records@);
            lemma_children_rebuilt(*self, old_self, n as int);
        }
        let size = match grup_size_checked(self) {
            Some(v) => v,
            None => return Err(RebuildError::SizeOverflow),
        };
        let ghost before = *self;
        self.header.dsize = size;
        proof {
            lemma_children_size_eq(*self, before, self.children@.len() as int);
            lemma_grup_rebuilt_size(*self, old_self);
        }
        Ok(())
    }
}

proof fn lemma_children_size_eq(a: EspGrup, b: EspGrup, n: int)
    requires
        a.children == b.children,
    ensures
        children_size(a, n) == children_size(b, n),
    decreases n,
{
    if n > 0 && n <= a.children@.len() {
        lemma_children_size_eq(a, b, n - 1);
    }
}

/// The written size of `g` (see [`grup_size`]) computed from the sizes its
/// nested groups record, or `None` when it does not fit in 32 bits.
fn grup_size_checked(g: &EspGrup) -> (r: Option<u32>)
    requires
        forall|k: int| 0 <= k < g.children@.len() ==> (#[trigger] g.children[k]).header.dsize == grup_size(g.children[k]),
    ensures
        r matches Some(v) ==> v == grup_size(*g),
        r is None ==> grup_size(*g) > u32::MAX,
{
    proof {
        lemma_records_size_nonneg(g.records@);
        lemma_children_size_nonneg(*g, g.children@.len() as int);
    }
    let mut total: u64 = 24;
    let mut i: usize = 0;
    while i < g.records.len()
        invariant
            i <= g.records@.len(),
            total == 24 + records_size(g.records@.take(i as int)),
            total <= 0xFFFF_FFFF,
        decreases g.records@.len() - i,
    {
        assert(g.records@.take(i + 1).drop_last() =~= g.records@.take(i as int));
        total = total + 24 + g.records[i].header.dsize as u64;
        if total > 0xFFFF_FFFF {
            proof {
                lemma_records_size_prefix(g.records@, i + 1);
                lemma_children_size_nonneg(*g, g.children@.len() as int);
            }
            return None;
        }
        i = i + 1;
    }
    assert(g.records@.take(g.records@.len() as int) =~= g.records@);
    let mut j: usize = 0;
    while j < g.children.len()
        invariant
            j <= g.children@.len(),
            forall|k: int| 0 <= k < g.children@.len() ==> (#[trigger] g.children[k]).header.dsize == grup_size(g.children[k]),
            total == 24 + records_size(g.records@) + children_size(*g, j as int),
            total <= 0xFFFF_FFFF,
        decreases g.children@.len() - j,
    {
        assert(children_size(*g, j + 1) == children_size(*g, j as int) + grup_size(g.children[j as int]));
        total = total + g.children[j].header.dsize as u64;
        if total > 0xFFFF_FFFF {
            proof {
                lemma_children_size_mono(*g, j + 1, g.children@.len() as int);
            }
            return None;
        }
        j = j + 1;
    }
    Some(total as u32)
}

/// The TES4 header record at the start of a plugin; its fields are kept as
/// raw bytes.
#[derive(Clone, Debug)]
pub struct Tes4Header {
    pub generic: GenericHeader,
    pub record_header_data: RecordHeaderData,
    pub field_data: Vec<u8>,
}

/// A plugin held in memory for write-back: TES4 header and top-level groups.
#[derive(Debug)]
pub struct EspFile {
    pub tes4: Tes4Header,
    pub top_level_grups: Vec<EspGrup>,
}

impl EspFile {
    /// Rebuilds every top-level group (see [`EspGrup::rebuild`]): it
    /// succeeds whenever every group's rebuilt sizes fit and nothing is
    /// compressed, and fails only as a group's rebuild can.
    pub fn rebuild_all(&mut self) -> (r: Result<(), RebuildError>)
        ensures
            r is Ok ==> final(self).top_level_grups@.len() == old(self).top_level_grups@.len()
                && final(self).tes4 == old(self).tes4
                && forall|i: int| 0 <= i < old(self).top_level_grups@.len()
                    ==> grup_rebuilt(#[trigger] final(self).top_level_grups[i], old(self).top_level_grups[i])
                        && rebuild_fits(old(self).top_level_grups[i]),
            r matches Err(RebuildError::SizeOverflow) ==> exists|i: int| 0 <= i < old(self).top_level_grups@.len()
                && !rebuild_fits(#[trigger] old(self).top_level_grups[i]),
            r matches Err(RebuildError::CompressionFailed) ==> exists|i: int| 0 <= i < old(self).top_level_grups@.len()
                && needs_compression(#[trigger] old(self).top_level_grups[i]),
            (forall|i: int| 0 <= i < old(self).top_level_grups@.len()
                ==> rebuild_fits(#[trigger] old(self).top_level_grups[i]) && !needs_compression(old(self).top_level_grups[i]))
                ==> r is Ok,
    {
        let ghost old_self = *self;
        let n = self.top_level_grups.len();
        let mut j: usize = 0;
        while j < n
            invariant
                j <= n,
                n == old_self.top_level_grups@.len(),
                self.top_level_grups@.len() == n,
                self.tes4 == old_self.tes4,
                old_self == *old(self),
                forall|k: int| 0 <= k < j ==> grup_rebuilt(#[trigger] self.top_level_grups[k], old_self.top_level_grups[k])
                    && rebuild_fits(old_self.top_level_grups[k]),
                forall|k: int| j <= k < n ==> #[trigger] self.top_level_grups[k] == old_self.top_level_grups[k],
            decreases n - j,
        {
            let res = self.top_level_grups[j].rebuild();
            if res.is_err() {
                return res;
            }
            j = j + 1;
        }
        Ok(())
    }
}

/// The records of a group in tree order: its own, then those of its nested
/// groups.
pub open spec fn grup_records(g: EspGrup) -> Seq<EspRecord>
    decreases g, 1int, 0int,
{
    g.records@ + children_records(g, g.children@.len() as int)
}

/// The records, in tree order, of the first `n` nested groups of `g`.
pub open spec fn children_records(g: EspGrup, n: int) -> Seq<EspRecord>
    decreases g, 0int, n,
{
    if n <= 0 || n > g.children@.len() { Seq::empty() } else { children_records(g, n - 1) + grup_records(g.children[n - 1]) }
}

/// The records, in tree order, of the first `n` groups of a list.
pub open spec fn grups_records(gs: Seq<EspGrup>, n: int) -> Seq<EspRecord>
    decreases n,
{
    if n <= 0 || n > gs.len() { Seq::empty() } else { grups_records(gs, n - 1) + grup_records(gs[n - 1]) }
}

/// The first record with form id `f`.
pub open spec fn first_with_form(rs: Seq<EspRecord>, f: u32) -> Option<EspRecord>
    decreases rs.len(),
{
    if rs.len() == 0 {
        None
    } else if rs[0].form_id == f {
        Some(rs[0])
    } else {
        first_with_form(rs.drop_first(), f)
    }
}

proof fn lemma_first_with_form_concat(a: Seq<EspRecord>, b: Seq<EspRecord>, f: u32)
    ensures
        first_with_form(a + b, f) == (if first_with_form(a, f) is Some { first_with_form(a, f) } else { first_with_form(b, f) }),
    decreases a.len(),
{
    if a.len() > 0 {
        assert((a + b).drop_first() =~= a.drop_first() + b);
        lemma_first_with_form_concat(a.drop_first(), b, f);
    } else {
        assert(a + b =~= b);
    }
}

/// The first record with form id `f` in a list.
fn first_in_records<'a>(rs: &'a Vec<EspRecord>, f: u32) -> (r: Option<&'a EspRecord>)
    ensures
        match r {
            Some(x) => first_with_form(rs@, f) == Some(*x),
            None => first_with_form(rs@, f) is None,
        },
{
    let mut i: usize = 0;
    assert(rs@.skip(0) =~= rs@);
    while i < rs.len()
        invariant
            i <= rs@.len(),
            first_with_form(rs@, f) == first_with_form(rs@.skip(i as int), f),
        decreases rs@.len() - i,
    {
        assert(rs@.skip(i as int).drop_first() =~= rs@.skip(i + 1));
        if rs[i].form_id == f {
            return Some(&rs[i]);
        }
        i = i + 1;
    }
    None
}

impl EspGrup {
    /// The first record with form id `form_id` in this group, in tree order
    /// (see [`grup_records`]).
    pub fn find_record_by_form_id(&self, form_id: u32) -> (r: Option<&EspRecord>)
        ensures
            match r {
                Some(x) => first_with_form(grup_records(*self), form_id) == Some(*x),
                None => first_with_form(grup_records(*self), form_id) is None,
            },
        decreases *self,
    {
        proof {
            lemma_first_with_form_concat(self.records@, children_records(*self, self.children@.len() as int), form_id);
        }
        match first_in_records(&self.records, form_id) {
            Some(x) => return Some(x),
            None => {},
        }
        let mut j: usize = 0;
        while j < self.children.len()
            invariant
                j <= self.children@.len(),
                first_with_form(children_records(*self, j as int), form_id) is None,
                first_with_form(self.records@, form_id) is None,
                first_with_form(grup_records(*self), form_id)
                    == first_with_form(children_records(*self, self.children@.len() as int), form_id),
            decreases self.children@.len() - j,
        {
            proof {
                assert(decreases_to!(*self => self.children));
                assert(decreases_to!(self.children => self.children[j as int]));
                lemma_first_with_form_concat(children_records(*self, j as int), grup_records(self.children[j as int]), form_id);
                assert(children_records(*self, j + 1) == children_records(*self, j as int) + grup_records(self.children[j as int]));
            }
            match self.children[j].find_record_by_form_id(form_id) {
                Some(x) => {
                    proof {
                        lemma_children_records_prefix(*self, j + 1, self.children@.len() as int, form_id);
                    }
                    return Some(x);
                },
                None => {},
            }
            j = j + 1;
        }
        None
    }
}

proof fn lemma_children_records_prefix(g: EspGrup, a: int, b: int, f: u32)
    requires
        0 <= a <= b <= g.children@.len(),
        first_with_form(children_records(g, a), f) is Some,
    ensures
        first_with_form(children_records(g, b), f) == first_with_form(children_records(g, a), f),
    decreases b - a,
{
    if a < b {
        lemma_children_records_prefix(g, a, b - 1, f);
        lemma_first_with_form_concat(children_records(g, b - 1), grup_records(g.children[b - 1]), f);
    }
}

proof fn lemma_grups_records_prefix(gs: Seq<EspGrup>, a: int, b: int, f: u32)
    requires
        0 <= a <= b <= gs.len(),
        first_with_form(grups_records(gs, a), f) is Some,
    ensures
        first_with_form(grups_records(gs, b), f) == first_with_form(grups_records(gs, a), f),
    decreases b - a,
{
    if a < b {
        lemma_grups_records_prefix(gs, a, b - 1, f);
        lemma_first_with_form_concat(grups_records(gs, b - 1), grup_records(gs[b - 1]), f);
    }
}

impl EspFile {
    /// The first record with form id `form_id` in the plugin, in tree order
    /// (see [`grups_records`]).
    pub fn find_record_by_form_id(&self, form_id: u32) -> (r: Option<&EspRecord>)
        ensures
            match r {
                Some(x) => first_with_form(grups_records(self.top_level_grups@, self.top_level_grups@.len() as int), form_id) == Some(*x),
                None => first_with_form(grups_records(self.top_level_grups@, self.top_level_grups@.len() as int), form_id) is None,
            },
    {
        let ghost gs = self.top_level_grups@;
        let mut j: usize = 0;
        while j < self.top_level_grups.len()
            invariant
                j <= gs.len(),
                gs == self.top_level_grups@,
                first_with_form(grups_records(gs, j as int), form_id) is None,
            decreases gs.len() - j,
        {
            proof {
                lemma_first_with_form_concat(grups_records(gs, j as int), grup_records(gs[j as int]), form_id);
            }
            match self.top_level_grups[j].find_record_by_form_id(form_id) {
                Some(x) => {
                    proof {
                        lemma_grups_records_prefix(gs, j + 1, gs.len() as int, form_id);
                    }
                    return Some(x);
                },
                None => {},
            }
            j = j + 1;
        }
        None
    }
}

/// The bytes of a group as written: its name, its written size (see
/// [`grup_size`]), the group header, its records and, in full, its nested
/// groups.
pub open spec fn grup_bytes(g: EspGrup) -> Seq<u8>
    decreases g, 1int, 0int,
{
    g.header.name@ + crate::bytes::u32_bytes(grup_size(g) as u32) + g.grup_header.s_ident@
        + crate::bytes::u32_bytes(g.grup_header.s_type) + crate::bytes::u16_bytes(g.grup_header.s_tstamp)
        + crate::bytes::u16_bytes(g.grup_header.param1) + crate::bytes::u16_bytes(g.grup_header.param2)
        + crate::bytes::u16_bytes(g.grup_header.param3)
        + records_bytes(g.records@, g.records@.len() as int) + children_bytes(g, g.children@.len() as int)
}

/// The bytes of the first `n` records.
pub open spec fn records_bytes(rs: Seq<EspRecord>, n: int) -> Seq<u8>
    decreases n,
{
    if n <= 0 || n > rs.len() { Seq::empty() } else { records_bytes(rs, n - 1) + record_bytes(rs[n - 1]) }
}

/// The bytes of the first `n` nested groups of `g`.
pub open spec fn children_bytes(g: EspGrup, n: int) -> Seq<u8>
    decreases g, 0int, n,
{
    if n <= 0 || n > g.children@.len() { Seq::empty() } else { children_bytes(g, n - 1) + grup_bytes(g.children[n - 1]) }
}

/// The written size of `g` when it fits in 32 bits (see [`grup_size`]).
fn grup_size_of(g: &EspGrup) -> (r: u32)
    requires
        grup_size(*g) <= u32::MAX,
    ensures
        r == grup_size(*g),
    decreases *g,
{
    let mut total: u64 = 24;
    let mut i: usize = 0;
    proof {
        lemma_records_size_nonneg(g.records@);
        lemma_children_size_nonneg(*g, g.children@.len() as int);
    }
    while i < g.records.len()
        invariant
            i <= g.records@.len(),
            grup_size(*g) <= u32::MAX,
            total == 24 + records_size(g.records@.take(i as int)),
            total <= grup_size(*g),
        decreases g.records@.len() - i,
    {
        assert(g.records@.take(i + 1).drop_last() =~= g.records@.take(i as int));
        proof {
            lemma_records_size_prefix(g.records@, i + 1);
            lemma_children_size_nonneg(*g, g.children@.len() as int);
        }
        total = total + 24 + g.records[i].header.dsize as u64;
        i = i + 1;
    }
    assert(g.records@.take(g.records@.len() as int) =~= g.records@);
    let mut j: usize = 0;
    while j < g.children.len()
        invariant
            j <= g.children@.len(),
            grup_size(*g) <= u32::MAX,
            total == 24 + records_size(g.records@) + children_size(*g, j as int),
            total <= grup_size(*g),
        decreases g.children@.len() - j,
    {
        proof {
            assert(decreases_to!(*g => g.children));
            assert(decreases_to!(g.children => g.children[j as int]));
            lemma_children_size_prefix(*g, j + 1, g.children@.len() as int);
            lemma_children_size(*g, g.children@.len() as int);
        }
        let c = grup_size_of(&g.children[j]);
        total = total + c as u64;
        j = j + 1;
    }
    total as u32
}

proof fn lemma_children_size_prefix(g: EspGrup, a: int, b: int)
    requires
        0 <= a <= b <= g.children@.len(),
    ensures
        children_size(g, a) <= children_size(g, b),
    decreases b - a,
{
    if a < b {
        lemma_children_size_prefix(g, a, b - 1);
        lemma_grup_size_pos(g.children[b - 1]);
    }
}

impl EspGrup {
    /// Appends the group as written (see [`grup_bytes`]), its size computed
    /// from its contents.
    pub fn serialize(&self, out: &mut Vec<u8>)
        requires
            grup_size(*self) <= u32::MAX,
        ensures
            final(out)@ == old(out)@ + grup_bytes(*self),
        decreases *self,
    {
        let dsize = grup_size_of(self);
        push_bytes(out, &self.header.name);
        push_u32_le(out, dsize);
        push_bytes(out, &self.grup_header.s_ident);
        push_u32_le(out, self.grup_header.s_type);
        push_u16_le(out, self.grup_header.s_tstamp);
        push_u16_le(out, self.grup_header.param1);
        push_u16_le(out, self.grup_header.param2);
        push_u16_le(out, self.grup_header.param3);
        let ghost head = out@;
        let mut i: usize = 0;
        while i < self.records.len()
            invariant
                i <= self.records@.len(),
                out@ == head + records_bytes(self.records@, i as int),
            decreases self.records@.len() - i,
        {
            self.records[i].write_to(out);
            i = i + 1;
        }
        let ghost mid = out@;
        let mut j: usize = 0;
        while j < self.children.len()
            invariant
                j <= self.children@.len(),
                grup_size(*self) <= u32::MAX,
                out@ == mid + children_bytes(*self, j as int),
            decreases self.children@.len() - j,
        {
            proof {
                assert(decreases_to!(*self => self.children));
                assert(decreases_to!(self.children => self.children[j as int]));
                lemma_children_size(*self, self.children@.len() as int);
                lemma_records_size_nonneg(self.records@);
            }
            self.children[j].serialize(out);
            j = j + 1;
        }
        assert(out@ =~= old(out)@ + grup_bytes(*self));
    }
}

/// Every top-level group's written size fits in 32 bits.
pub open spec fn groups_fit(gs: Seq<EspGrup>) -> bool {
    forall|i: int| 0 <= i < gs.len() ==> grup_size(#[trigger] gs[i]) <= u32::MAX
}

/// The bytes of the first `n` groups of a list.
pub open spec fn grups_bytes(gs: Seq<EspGrup>, n: int) -> Seq<u8>
    decreases n,
{
    if n <= 0 || n > gs.len() { Seq::empty() } else { grups_bytes(gs, n - 1) + grup_bytes(gs[n - 1]) }
}

/// The bytes of a plugin as written: the TES4 record (its size the length
/// of its field data, taken to 32 bits) and every top-level group.
pub open spec fn file_bytes(f: EspFile) -> Seq<u8> {
    f.tes4.generic.name@ + crate::bytes::u32_bytes(f.tes4.field_data@.len() as u32)
        + record_header_bytes(f.tes4.record_header_data) + f.tes4.field_data@
        + grups_bytes(f.top_level_grups@, f.top_level_grups@.len() as int)
}

impl EspFile {
    /// The plugin as written (see [`file_bytes`]).
    pub fn serialize(&self) -> (r: Vec<u8>)
        requires
            groups_fit(self.top_level_grups@),
        ensures
            r@ == file_bytes(*self),
    {
        let mut out: Vec<u8> = Vec::new();
        push_bytes(&mut out, &self.tes4.generic.name);
        push_u32_le(&mut out, self.tes4.field_data.len() as u32);
        push_u32_le(&mut out, self.tes4.record_header_data.flags);
        push_u32_le(&mut out, self.tes4.record_header_data.form_id);
        push_u32_le(&mut out, self.tes4.record_header_data.version);
        push_u16_le(&mut out, self.tes4.record_header_data.f_version);
        push_u16_le(&mut out, self.tes4.record_header_data.v_info);
        push_bytes(&mut out, self.tes4.field_data.as_slice());
        let ghost head = out@;
        let mut i: usize = 0;
        while i < self.top_level_grups.len()
            invariant
                i <= self.top_level_grups@.len(),
                groups_fit(self.top_level_grups@),
                out@ == head + grups_bytes(self.top_level_grups@, i as int),
            decreases self.top_level_grups@.len() - i,
        {
            self.top_level_grups[i].serialize(&mut out);
            i = i + 1;
        }
        assert(out@ =~= file_bytes(*self));
        out
    }
}

} // verus!
