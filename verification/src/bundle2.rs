//! Framing of bundles: a magic string, stream parameters, and parts, each
//! with a header and a payload in chunks. Bundles are not compressed.

use vstd::prelude::*;
use crate::delta::append_bytes;
use crate::errors::{Error, ErrorKind};
use crate::nodehash::{hex_spec, NodeHash};

verus! {

/// The most bytes that a part's type, a parameter's key or a parameter's
/// value can have, and the most parameters of either kind: what one byte
/// can count.
pub const MAX_FIELD: usize = 255;

/// The most bytes in one chunk of a payload.
pub const MAX_CHUNK: usize = 0x7fff_ffff;

/// A number in four bytes, the highest first.
pub open spec fn be32(n: int) -> Seq<u8> {
    seq![
        ((n / 0x100_0000) % 0x100) as u8,
        ((n / 0x1_0000) % 0x100) as u8,
        ((n / 0x100) % 0x100) as u8,
        (n % 0x100) as u8,
    ]
}

/// The magic string that a bundle begins with: `HG20`.
pub open spec fn magic() -> Seq<u8> {
    seq![0x48u8, 0x47u8, 0x32u8, 0x30u8]
}

/// An ASCII letter in upper case; any other byte as it is.
pub open spec fn upper(b: u8) -> u8 {
    if 0x61 <= b <= 0x7a {
        (b - 0x20) as u8
    } else {
        b
    }
}

/// An ASCII letter in lower case; any other byte as it is.
pub open spec fn lower(b: u8) -> u8 {
    if 0x41 <= b <= 0x5a {
        (b + 0x20) as u8
    } else {
        b
    }
}

/// A parameter of a part.
#[derive(Debug, PartialEq, Eq)]
pub struct PartParam {
    pub key: Vec<u8>,
    pub value: Vec<u8>,
}

/// A `PartParam` as a mathematical value.
pub struct ParamView {
    pub key: Seq<u8>,
    pub value: Seq<u8>,
}

impl View for PartParam {
    type V = ParamView;

    open spec fn view(&self) -> ParamView {
        ParamView { key: self.key@, value: self.value@ }
    }
}

/// The views of a list of parameters, in order.
pub open spec fn param_views(params: Seq<PartParam>) -> Seq<ParamView> {
    Seq::new(params.len(), |i: int| params[i]@)
}

/// A part as a mathematical value.
pub struct PartView {
    pub part_type: Seq<u8>,
    pub mandatory: bool,
    pub mparams: Seq<ParamView>,
    pub aparams: Seq<ParamView>,
    pub payload: Seq<u8>,
}

/// A parameter can be framed: its key has one byte at least, and the sizes
/// of key and value fit one byte each.
pub open spec fn param_ok(p: ParamView) -> bool {
    0 < p.key.len() <= MAX_FIELD && p.value.len() <= MAX_FIELD
}

/// All of the parameters can be framed, and one byte can count them.
pub open spec fn params_ok(params: Seq<ParamView>) -> bool {
    params.len() <= MAX_FIELD && forall|i: int|
        0 <= i < params.len() ==> param_ok(#[trigger] params[i])
}

impl PartView {
    /// The part can be framed.
    pub open spec fn wf(self) -> bool {
        &&& 0 < self.part_type.len() <= MAX_FIELD
        &&& params_ok(self.mparams)
        &&& params_ok(self.aparams)
    }
}

/// The type of a part as it is written: in upper case where the part is
/// mandatory, in lower case where it is advisory.
pub open spec fn wire_type(part: PartView) -> Seq<u8> {
    Seq::new(
        part.part_type.len(),
        |i: int|
            if part.mandatory {
                upper(part.part_type[i])
            } else {
                lower(part.part_type[i])
            },
    )
}

/// The sizes of the parameters: for each, the size of its key and the size
/// of its value, one byte each.
pub open spec fn param_sizes(params: Seq<ParamView>) -> Seq<u8>
    decreases params.len(),
{
    if params.len() == 0 {
        Seq::empty()
    } else {
        param_sizes(params.drop_last()) + seq![
            params.last().key.len() as u8,
            params.last().value.len() as u8,
        ]
    }
}

/// The keys and values of the parameters, one after the other.
pub open spec fn param_data(params: Seq<ParamView>) -> Seq<u8>
    decreases params.len(),
{
    if params.len() == 0 {
        Seq::empty()
    } else {
        param_data(params.drop_last()) + params.last().key + params.last().value
    }
}

/// The header of the part with the number `id`: the size of its type and
/// the type, the number, the counts of mandatory and advisory parameters,
/// their sizes, their keys and values.
pub open spec fn part_header(part: PartView, id: int) -> Seq<u8> {
    seq![part.part_type.len() as u8] + wire_type(part) + be32(id) + seq![
        part.mparams.len() as u8,
        part.aparams.len() as u8,
    ] + param_sizes(part.mparams) + param_sizes(part.aparams) + param_data(part.mparams)
        + param_data(part.aparams)
}

/// A payload in chunks: each chunk is its size and its bytes, a chunk is as
/// large as it can be, and a size of zero ends the payload.
pub open spec fn chunked(payload: Seq<u8>) -> Seq<u8>
    decreases payload.len(),
{
    if payload.len() == 0 {
        be32(0)
    } else if payload.len() <= MAX_CHUNK {
        be32(payload.len() as int) + payload + be32(0)
    } else {
        be32(MAX_CHUNK as int) + payload.take(MAX_CHUNK as int) + chunked(
            payload.skip(MAX_CHUNK as int),
        )
    }
}

/// A part as it is written: the size of its header, the header, and the
/// payload in chunks.
pub open spec fn part_bytes(part: PartView, id: int) -> Seq<u8> {
    be32(part_header(part, id).len() as int) + part_header(part, id) + chunked(part.payload)
}

/// The first `k` parts as they are written, numbered from zero.
pub open spec fn parts_bytes(parts: Seq<PartView>, k: int) -> Seq<u8>
    decreases k,
{
    if k <= 0 {
        Seq::empty()
    } else {
        parts_bytes(parts, k - 1) + part_bytes(parts[k - 1], k - 1)
    }
}

/// A bundle as it is written: the magic string, no stream parameters (the
/// bundle is not compressed), the parts, and an empty header as the end.
pub open spec fn bundle_bytes(parts: Seq<PartView>) -> Seq<u8> {
    magic() + be32(0) + parts_bytes(parts, parts.len() as int) + be32(0)
}

/// The sizes and the data of parameters that can be framed are bounded by
/// their number.
pub proof fn lemma_param_lengths(params: Seq<ParamView>)
    requires
        forall|i: int| 0 <= i < params.len() ==> param_ok(#[trigger] params[i]),
    ensures
        param_sizes(params).len() == 2 * params.len(),
        param_data(params).len() <= 2 * MAX_FIELD * params.len(),
    decreases params.len(),
{
    if params.len() > 0 {
        let front = params.drop_last();
        assert forall|i: int| 0 <= i < front.len() implies param_ok(#[trigger] front[i]) by {
            assert(front[i] == params[i]);
        }
        lemma_param_lengths(front);
        assert(param_ok(params[params.len() - 1]));
        assert(2 * MAX_FIELD * params.len() == 2 * MAX_FIELD * front.len() + 2 * MAX_FIELD)
            by (nonlinear_arith)
            requires
                params.len() == front.len() + 1,
        ;
    }
}

fn push_be32(out: &mut Vec<u8>, n: u32)
    ensures
        final(out)@ == old(out)@ + be32(n as int),
{
    out.push((n / 0x100_0000) as u8);
    out.push(((n / 0x1_0000) % 0x100) as u8);
    out.push(((n / 0x100) % 0x100) as u8);
    out.push((n % 0x100) as u8);
    assert(out@ =~= old(out)@ + be32(n as int));
}

/// One part of a bundle.
#[derive(Debug, PartialEq, Eq)]
pub struct Part {
    part_type: Vec<u8>,
    mandatory: bool,
    mparams: Vec<PartParam>,
    aparams: Vec<PartParam>,
    payload: Vec<u8>,
}

impl View for Part {
    type V = PartView;

    closed spec fn view(&self) -> PartView {
        PartView {
            part_type: self.part_type@,
            mandatory: self.mandatory,
            mparams: param_views(self.mparams@),
            aparams: param_views(self.aparams@),
            payload: self.payload@,
        }
    }
}

fn invalid<T>() -> (r: Result<T, Error>)
    ensures
        r == Err::<T, Error>(Error { kind: ErrorKind::ProtocolViolation, context: None }),
{
    Err(Error::new(ErrorKind::ProtocolViolation))
}

impl Part {
    /// A part of the given type with no parameters and an empty payload.
    /// It fails unless the type has between 1 and 255 bytes.
    pub fn new(part_type: &[u8], mandatory: bool) -> (r: Result<Part, Error>)
        ensures
            r is Ok <==> 0 < part_type@.len() <= MAX_FIELD,
            r matches Ok(part) ==> part@ == (PartView {
                part_type: part_type@,
                mandatory,
                mparams: Seq::empty(),
                aparams: Seq::empty(),
                payload: Seq::empty(),
            }) && part@.wf(),
            r matches Err(e) ==> e == (Error { kind: ErrorKind::ProtocolViolation, context: None }),
    {
        if part_type.len() == 0 || part_type.len() > MAX_FIELD {
            return invalid();
        }
        let part = Part {
            part_type: vstd::slice::slice_to_vec(part_type),
            mandatory,
            mparams: Vec::new(),
            aparams: Vec::new(),
            payload: Vec::new(),
        };
        assert(part@.mparams =~= Seq::<ParamView>::empty());
        assert(part@.aparams =~= Seq::<ParamView>::empty());
        Ok(part)
    }

    /// Adds a mandatory parameter. It fails, and leaves the part as it is,
    /// unless the key has between 1 and 255 bytes, the value 255 at most,
    /// and the part fewer than 255 mandatory parameters.
    pub fn add_mparam(&mut self, key: &[u8], value: &[u8]) -> (r: Result<(), Error>)
        requires
            old(self)@.wf(),
        ensures
            final(self)@.wf(),
            r is Ok <==> param_ok(ParamView { key: key@, value: value@ })
                && old(self)@.mparams.len() < MAX_FIELD,
            r is Ok ==> final(self)@ == (PartView {
                mparams: old(self)@.mparams.push(ParamView { key: key@, value: value@ }),
                ..old(self)@
            }),
            r is Err ==> final(self)@ == old(self)@,
            r matches Err(e) ==> e == (Error { kind: ErrorKind::ProtocolViolation, context: None }),
    {
        if key.len() == 0 || key.len() > MAX_FIELD || value.len() > MAX_FIELD
            || self.mparams.len() >= MAX_FIELD {
            return invalid();
        }
        let param = PartParam {
            key: vstd::slice::slice_to_vec(key),
            value: vstd::slice::slice_to_vec(value),
        };
        proof {
            assert(param_views(self.mparams@.push(param)) =~= param_views(self.mparams@).push(
                param@,
            ));
        }
        self.mparams.push(param);
        Ok(())
    }

    /// Adds an advisory parameter. It fails, and leaves the part as it is,
    /// unless the key has between 1 and 255 bytes, the value 255 at most,
    /// and the part fewer than 255 advisory parameters.
    pub fn add_aparam(&mut self, key: &[u8], value: &[u8]) -> (r: Result<(), Error>)
        requires
            old(self)@.wf(),
        ensures
            final(self)@.wf(),
            r is Ok <==> param_ok(ParamView { key: key@, value: value@ })
                && old(self)@.aparams.len() < MAX_FIELD,
            r is Ok ==> final(self)@ == (PartView {
                aparams: old(self)@.aparams.push(ParamView { key: key@, value: value@ }),
                ..old(self)@
            }),
            r is Err ==> final(self)@ == old(self)@,
            r matches Err(e) ==> e == (Error { kind: ErrorKind::ProtocolViolation, context: None }),
    {
        if key.len() == 0 || key.len() > MAX_FIELD || value.len() > MAX_FIELD
            || self.aparams.len() >= MAX_FIELD {
            return invalid();
        }
        let param = PartParam {
            key: vstd::slice::slice_to_vec(key),
            value: vstd::slice::slice_to_vec(value),
        };
        proof {
            assert(param_views(self.aparams@.push(param)) =~= param_views(self.aparams@).push(
                param@,
            ));
        }
        self.aparams.push(param);
        Ok(())
    }

    /// Sets the payload.
    pub fn set_payload(&mut self, payload: Vec<u8>)
        ensures
            final(self)@ == (PartView { payload: payload@, ..old(self)@ }),
    {
        self.payload = payload;
    }

    fn push_params(sizes: &mut Vec<u8>, data: &mut Vec<u8>, params: &Vec<PartParam>)
        requires
            params_ok(param_views(params@)),
        ensures
            final(sizes)@ == old(sizes)@ + param_sizes(param_views(params@)),
            final(data)@ == old(data)@ + param_data(param_views(params@)),
    {
        let ghost views = param_views(params@);
        let mut k: usize = 0;
        assert(old(sizes)@ + param_sizes(views.take(0)) =~= old(sizes)@);
        assert(old(data)@ + param_data(views.take(0)) =~= old(data)@);
        while k < params.len()
            invariant
                k <= params@.len(),
                views == param_views(params@),
                params_ok(views),
                sizes@ == old(sizes)@ + param_sizes(views.take(k as int)),
                data@ == old(data)@ + param_data(views.take(k as int)),
            decreases params@.len() - k,
        {
            let param = &params[k];
            proof {
                assert(views.take(k + 1).drop_last() =~= views.take(k as int));
                assert(views.take(k + 1).last() == param@);
                assert(param_ok(views[k as int]));
            }
            let ghost sizes_before = sizes@;
            let ghost data_before = data@;
            sizes.push(param.key.len() as u8);
            sizes.push(param.value.len() as u8);
            append_bytes(data, param.key.as_slice());
            append_bytes(data, param.value.as_slice());
            proof {
                assert(sizes@ =~= sizes_before + seq![
                    param@.key.len() as u8,
                    param@.value.len() as u8,
                ]);
                assert(sizes@ =~= old(sizes)@ + param_sizes(views.take(k + 1)));
                assert(data@ =~= old(data)@ + param_data(views.take(k + 1)));
            }
            k = k + 1;
        }
        assert(views.take(k as int) =~= views);
    }

    /// Writes the header of the part with the number `id`.
    pub fn header(&self, id: u32) -> (header: Vec<u8>)
        requires
            self@.wf(),
        ensures
            header@ == part_header(self@, id as int),
            header@.len() <= 0x7fff_ffff,
    {
        let mut header: Vec<u8> = Vec::new();
        header.push(self.part_type.len() as u8);
        let mut k: usize = 0;
        while k < self.part_type.len()
            invariant
                k <= self.part_type@.len(),
                header@ == seq![self@.part_type.len() as u8] + wire_type(self@).take(k as int),
            decreases self.part_type@.len() - k,
        {
            let b = self.part_type[k];
            let written = if self.mandatory {
                if 0x61 <= b && b <= 0x7a {
                    b - 0x20
                } else {
                    b
                }
            } else {
                if 0x41 <= b && b <= 0x5a {
                    b + 0x20
                } else {
                    b
                }
            };
            header.push(written);
            assert(header@ =~= seq![self@.part_type.len() as u8] + wire_type(self@).take(k + 1));
            k = k + 1;
        }
        assert(wire_type(self@).take(k as int) =~= wire_type(self@));
        push_be32(&mut header, id);
        header.push(self.mparams.len() as u8);
        header.push(self.aparams.len() as u8);
        let ghost fixed = header@;
        let mut data: Vec<u8> = Vec::new();
        Part::push_params(&mut header, &mut data, &self.mparams);
        Part::push_params(&mut header, &mut data, &self.aparams);
        proof {
            lemma_param_lengths(self@.mparams);
            lemma_param_lengths(self@.aparams);
            assert(fixed =~= seq![self@.part_type.len() as u8] + wire_type(self@) + be32(id as int)
                + seq![self@.mparams.len() as u8, self@.aparams.len() as u8]);
            assert(data@ =~= param_data(self@.mparams) + param_data(self@.aparams));
            assert(2 * MAX_FIELD * self@.mparams.len() <= 2 * 255 * 255) by (nonlinear_arith)
                requires
                    self@.mparams.len() <= 255,
                    MAX_FIELD == 255,
            ;
            assert(2 * MAX_FIELD * self@.aparams.len() <= 2 * 255 * 255) by (nonlinear_arith)
                requires
                    self@.aparams.len() <= 255,
                    MAX_FIELD == 255,
            ;
        }
        append_bytes(&mut header, data.as_slice());
        assert(header@ =~= part_header(self@, id as int));
        header
    }

    /// Writes the part with the number `id` behind what `out` holds.
    pub fn encode_into(&self, out: &mut Vec<u8>, id: u32)
        requires
            self@.wf(),
        ensures
            final(out)@ == old(out)@ + part_bytes(self@, id as int),
    {
        let header = self.header(id);
        push_be32(out, header.len() as u32);
        append_bytes(out, header.as_slice());
        let ghost before = out@;
        let mut from: usize = 0;
        assert(self.payload@.skip(0) =~= self.payload@);
        while self.payload.len() - from > MAX_CHUNK
            invariant
                from <= self.payload@.len(),
                before + chunked(self.payload@) == out@ + chunked(self.payload@.skip(from as int)),
            decreases self.payload@.len() - from,
        {
            let ghost rest = self.payload@.skip(from as int);
            push_be32(out, MAX_CHUNK as u32);
            append_bytes(
                out,
                vstd::slice::slice_subrange(self.payload.as_slice(), from, from + MAX_CHUNK),
            );
            proof {
                assert(rest.take(MAX_CHUNK as int) =~= self.payload@.subrange(
                    from as int,
                    from + MAX_CHUNK,
                ));
                assert(rest.skip(MAX_CHUNK as int) =~= self.payload@.skip(from + MAX_CHUNK));
                assert(out@ + chunked(rest.skip(MAX_CHUNK as int)) =~= before + chunked(
                    self.payload@,
                ));
            }
            from = from + MAX_CHUNK;
        }
        let ghost rest = self.payload@.skip(from as int);
        if self.payload.len() - from > 0 {
            push_be32(out, (self.payload.len() - from) as u32);
            append_bytes(
                out,
                vstd::slice::slice_subrange(self.payload.as_slice(), from, self.payload.len()),
            );
            assert(rest =~= self.payload@.subrange(from as int, self.payload@.len() as int));
        }
        push_be32(out, 0);
        assert(out@ =~= before + chunked(self.payload@));
        assert(out@ =~= old(out)@ + part_bytes(self@, id as int));
    }
}

/// The views of a list of parts, in order.
pub open spec fn part_views(parts: Seq<Part>) -> Seq<PartView> {
    Seq::new(parts.len(), |i: int| parts[i]@)
}

/// Writes a bundle of the given parts, which it numbers from zero. It
/// fails where the parts are too many to be numbered in four bytes.
pub fn encode_bundle(parts: &Vec<Part>) -> (r: Result<Vec<u8>, Error>)
    requires
        forall|i: int| 0 <= i < parts@.len() ==> (#[trigger] parts@[i])@.wf(),
    ensures
        r is Ok <==> parts@.len() <= u32::MAX,
        r matches Ok(bytes) ==> bytes@ == bundle_bytes(part_views(parts@)),
        r matches Err(e) ==> e == (Error { kind: ErrorKind::ProtocolViolation, context: None }),
{
    if parts.len() > u32::MAX as usize {
        return invalid();
    }
    let ghost views = part_views(parts@);
    let mut out: Vec<u8> = Vec::new();
    out.push(0x48);
    out.push(0x47);
    out.push(0x32);
    out.push(0x30);
    push_be32(&mut out, 0);
    assert(out@ =~= magic() + be32(0) + parts_bytes(views, 0));
    let mut k: usize = 0;
    while k < parts.len()
        invariant
            k <= parts@.len() <= u32::MAX,
            views == part_views(parts@),
            forall|i: int| 0 <= i < parts@.len() ==> (#[trigger] parts@[i])@.wf(),
            out@ == magic() + be32(0) + parts_bytes(views, k as int),
        decreases parts@.len() - k,
    {
        assert(views[k as int] == parts@[k as int]@);
        parts[k].encode_into(&mut out, k as u32);
        assert(out@ =~= magic() + be32(0) + parts_bytes(views, k + 1));
        k = k + 1;
    }
    push_be32(&mut out, 0);
    Ok(out)
}

/// A key with its value, as a `listkeys` part carries them.
#[derive(Debug, PartialEq, Eq)]
pub struct ListKey {
    pub key: Vec<u8>,
    pub value: Vec<u8>,
}

impl View for ListKey {
    type V = ParamView;

    open spec fn view(&self) -> ParamView {
        ParamView { key: self.key@, value: self.value@ }
    }
}

/// The views of a list of keys, in order.
pub open spec fn listkey_views(items: Seq<ListKey>) -> Seq<ParamView> {
    Seq::new(items.len(), |i: int| items[i]@)
}

/// The part type `listkeys`.
pub open spec fn listkeys_type() -> Seq<u8> {
    seq![0x6cu8, 0x69u8, 0x73u8, 0x74u8, 0x6bu8, 0x65u8, 0x79u8, 0x73u8]
}

/// The parameter key `namespace`.
pub open spec fn namespace_key() -> Seq<u8> {
    seq![0x6eu8, 0x61u8, 0x6du8, 0x65u8, 0x73u8, 0x70u8, 0x61u8, 0x63u8, 0x65u8]
}

/// The part type `changegroup`.
pub open spec fn changegroup_type() -> Seq<u8> {
    seq![0x63u8, 0x68u8, 0x61u8, 0x6eu8, 0x67u8, 0x65u8, 0x67u8, 0x72u8, 0x6fu8, 0x75u8, 0x70u8]
}

/// The parameter key `version`.
pub open spec fn version_key() -> Seq<u8> {
    seq![0x76u8, 0x65u8, 0x72u8, 0x73u8, 0x69u8, 0x6fu8, 0x6eu8]
}

/// The changegroup version `02`.
pub open spec fn version_02() -> Seq<u8> {
    seq![0x30u8, 0x32u8]
}

/// The payload of a `listkeys` part: for each key, the key, a tab, the
/// value and a line feed.
pub open spec fn listkeys_payload(items: Seq<ParamView>) -> Seq<u8>
    decreases items.len(),
{
    if items.len() == 0 {
        Seq::empty()
    } else {
        listkeys_payload(items.drop_last()) + items.last().key + seq![0x09u8] + items.last().value
            + seq![0x0au8]
    }
}

/// The mandatory `listkeys` part for `namespace` with the given keys.
pub open spec fn listkeys_part(namespace: Seq<u8>, items: Seq<ParamView>) -> PartView {
    PartView {
        part_type: listkeys_type(),
        mandatory: true,
        mparams: seq![ParamView { key: namespace_key(), value: namespace }],
        aparams: Seq::empty(),
        payload: listkeys_payload(items),
    }
}

/// The mandatory `changegroup` part, in version `02`, with the given
/// payload.
pub open spec fn changegroup_part_spec(payload: Seq<u8>) -> PartView {
    PartView {
        part_type: changegroup_type(),
        mandatory: true,
        mparams: seq![ParamView { key: version_key(), value: version_02() }],
        aparams: Seq::empty(),
        payload,
    }
}

fn mandatory_part(part_type: Vec<u8>, key: Vec<u8>, value: &[u8], payload: Vec<u8>) -> (r: Result<
    Part,
    Error,
>)
    requires
        0 < part_type@.len() <= MAX_FIELD,
        0 < key@.len() <= MAX_FIELD,
    ensures
        r is Ok <==> value@.len() <= MAX_FIELD,
        r matches Ok(part) ==> part@.wf() && part@ == (PartView {
            part_type: part_type@,
            mandatory: true,
            mparams: seq![ParamView { key: key@, value: value@ }],
            aparams: Seq::empty(),
            payload: payload@,
        }),
        r matches Err(e) ==> e == (Error { kind: ErrorKind::ProtocolViolation, context: None }),
{
    let mut part = match Part::new(part_type.as_slice(), true) {
        Ok(part) => part,
        Err(e) => {
            return Err(e);
        },
    };
    match part.add_mparam(key.as_slice(), value) {
        Ok(()) => {},
        Err(e) => {
            return Err(e);
        },
    }
    part.set_payload(payload);
    assert(part@.mparams =~= seq![ParamView { key: key@, value: value@ }]);
    Ok(part)
}

/// Makes the `listkeys` part for `namespace` with the given keys. It
/// fails where the namespace has more than 255 bytes.
pub fn listkey_part(namespace: &[u8], items: &Vec<ListKey>) -> (r: Result<Part, Error>)
    ensures
        r is Ok <==> namespace@.len() <= MAX_FIELD,
        r matches Ok(part) ==> part@.wf() && part@ == listkeys_part(
            namespace@,
            listkey_views(items@),
        ),
        r matches Err(e) ==> e == (Error { kind: ErrorKind::ProtocolViolation, context: None }),
{
    let ghost views = listkey_views(items@);
    let mut payload: Vec<u8> = Vec::new();
    let mut k: usize = 0;
    while k < items.len()
        invariant
            k <= items@.len(),
            views == listkey_views(items@),
            payload@ == listkeys_payload(views.take(k as int)),
        decreases items@.len() - k,
    {
        let item = &items[k];
        proof {
            assert(views.take(k + 1).drop_last() =~= views.take(k as int));
            assert(views.take(k + 1).last() == item@);
        }
        let ghost before = payload@;
        append_bytes(&mut payload, item.key.as_slice());
        payload.push(0x09);
        append_bytes(&mut payload, item.value.as_slice());
        payload.push(0x0a);
        assert(payload@ =~= before + item@.key + seq![0x09u8] + item@.value + seq![0x0au8]);
        k = k + 1;
    }
    assert(views.take(k as int) =~= views);
    let part_type: Vec<u8> = vec![0x6cu8, 0x69u8, 0x73u8, 0x74u8, 0x6bu8, 0x65u8, 0x79u8, 0x73u8];
    let key: Vec<u8> = vec![0x6eu8, 0x61u8, 0x6du8, 0x65u8, 0x73u8, 0x70u8, 0x61u8, 0x63u8, 0x65u8];
    assert(part_type@ =~= listkeys_type());
    assert(key@ =~= namespace_key());
    mandatory_part(part_type, key, namespace, payload)
}

/// Makes the `changegroup` part, in version `02`, around a payload.
pub fn changegroup_part(payload: Vec<u8>) -> (part: Part)
    ensures
        part@.wf(),
        part@ == changegroup_part_spec(payload@),
{
    let part_type: Vec<u8> = vec![
        0x63u8,
        0x68u8,
        0x61u8,
        0x6eu8,
        0x67u8,
        0x65u8,
        0x67u8,
        0x72u8,
        0x6fu8,
        0x75u8,
        0x70u8,
    ];
    let key: Vec<u8> = vec![0x76u8, 0x65u8, 0x72u8, 0x73u8, 0x69u8, 0x6fu8, 0x6eu8];
    let version: Vec<u8> = vec![0x30u8, 0x32u8];
    assert(part_type@ =~= changegroup_type());
    assert(key@ =~= version_key());
    assert(version@ =~= version_02());
    mandatory_part(part_type, key, version.as_slice(), payload).unwrap()
}

/// A name with the node that was found for it, if one was.
#[derive(Debug, PartialEq, Eq)]
pub struct KeyLookup {
    pub name: Vec<u8>,
    pub node: Option<NodeHash>,
}

/// The keys that lookups give: for each name that a node was found for, in
/// order, the name with the node in hexadecimal. A name for which none was
/// found is left out.
pub open spec fn found_keys(lookups: Seq<KeyLookup>) -> Seq<ParamView>
    decreases lookups.len(),
{
    if lookups.len() == 0 {
        Seq::empty()
    } else {
        found_keys(lookups.drop_last()) + match lookups.last().node {
            Some(node) => seq![
                ParamView { key: lookups.last().name@, value: hex_spec(node.bytes@) },
            ],
            None => Seq::empty(),
        }
    }
}

/// Makes keys of names and the nodes found for them; a name for which no
/// node was found is dropped.
pub fn listkeys_of(lookups: &Vec<KeyLookup>) -> (items: Vec<ListKey>)
    ensures
        listkey_views(items@) == found_keys(lookups@),
{
    let mut items: Vec<ListKey> = Vec::new();
    let mut k: usize = 0;
    assert(listkey_views(items@) =~= found_keys(lookups@.take(0)));
    while k < lookups.len()
        invariant
            k <= lookups@.len(),
            listkey_views(items@) == found_keys(lookups@.take(k as int)),
        decreases lookups@.len() - k,
    {
        let lookup = &lookups[k];
        proof {
            assert(lookups@.take(k + 1).drop_last() =~= lookups@.take(k as int));
            assert(lookups@.take(k + 1).last() == *lookup);
        }
        match lookup.node {
            Some(node) => {
                let item = ListKey { key: lookup.name.clone(), value: node.to_hex() };
                proof {
                    assert(listkey_views(items@.push(item)) =~= listkey_views(items@).push(item@));
                    assert(listkey_views(items@).push(item@) =~= found_keys(
                        lookups@.take(k + 1),
                    ));
                }
                items.push(item);
            },
            None => {
                assert(found_keys(lookups@.take(k + 1)) =~= found_keys(lookups@.take(k as int)));
            },
        }
        k = k + 1;
    }
    assert(lookups@.take(k as int) =~= lookups@);
    items
}

} // verus!
