//! Register layout of a target and the transfer of its registers as bytes.
use vstd::prelude::*;
use crate::codec::{decode_value, encode_value, decoding, encoding, fits, lemma_codec_round_trip, lemma_encoding_len, Endian};
use crate::error::AdapterError;

verus! {

/// One register as the protocol sees it: the engine's id for it, if the engine
/// backs it, and its width in bytes.
#[derive(Clone, Copy, Debug, PartialEq, Eq, Structural)]
pub struct RegSlot {
    pub id: Option<i32>,
    pub width: usize,
}

/// The ordered register set of an architecture, its byte order, and its
/// target description document.
pub struct RegLayout {
    pub slots: Vec<RegSlot>,
    pub endian: Endian,
    pub description: String,
}

/// Sum of the widths of `slots`.
pub open spec fn total_width(slots: Seq<RegSlot>) -> nat
    decreases slots.len(),
{
    if slots.len() == 0 {
        0
    } else {
        slots[0].width as nat + total_width(slots.drop_first())
    }
}

/// The value a register transfer carries for `s`: what the engine holds, or
/// zero for a register the engine does not back.
pub open spec fn shown_value(s: RegSlot, v: u64) -> nat {
    if s.id.is_some() {
        v as nat
    } else {
        0
    }
}

/// The buffer that carries `values`, register after register.
pub open spec fn encode_all(e: Endian, slots: Seq<RegSlot>, values: Seq<u64>) -> Seq<u8>
    decreases slots.len(),
{
    if slots.len() == 0 {
        seq![]
    } else {
        encoding(e, shown_value(slots[0], values[0]), slots[0].width as nat) + encode_all(
            e,
            slots.drop_first(),
            values.drop_first(),
        )
    }
}

/// The engine writes a buffer asks for: each backed register, in order, with
/// the value its bytes carry.
pub open spec fn decoded_writes(e: Endian, slots: Seq<RegSlot>, buf: Seq<u8>) -> Seq<(i32, u64)>
    decreases slots.len(),
{
    if slots.len() == 0 {
        seq![]
    } else {
        let w = slots[0].width as int;
        let rest = decoded_writes(e, slots.drop_first(), buf.subrange(w, buf.len() as int));
        match slots[0].id {
            Some(id) => seq![(id, decoding(e, buf.subrange(0, w)) as u64)] + rest,
            None => rest,
        }
    }
}

/// Each backed register paired with its value.
pub open spec fn backed_values(slots: Seq<RegSlot>, values: Seq<u64>) -> Seq<(i32, u64)>
    decreases slots.len(),
{
    if slots.len() == 0 {
        seq![]
    } else {
        let rest = backed_values(slots.drop_first(), values.drop_first());
        match slots[0].id {
            Some(id) => seq![(id, values[0])] + rest,
            None => rest,
        }
    }
}

/// Where a single-register read takes its bytes from.
#[derive(Clone, Copy, Debug, PartialEq, Eq, Structural)]
pub enum ReadSource {
    /// A register without engine backing: `width` zero bytes.
    Zero { width: usize },
    /// The engine's value of register `id`, encoded in `width` bytes.
    Scalar { id: i32, width: usize },
    /// The engine's wide transfer of register `id`.
    Wide { id: i32 },
}

/// What a single-register write does to the engine.
#[derive(Clone, Copy, Debug, PartialEq, Eq, Structural)]
pub enum WritePlan {
    /// A register without engine backing: the write is ignored.
    Ignore,
    /// Write `value` to register `id`.
    Scalar { id: i32, value: u64 },
    /// Hand the bytes as they are to the engine's wide write of register `id`.
    Wide { id: i32 },
}

pub open spec fn read_source_spec(s: RegSlot) -> ReadSource {
    match s.id {
        None => ReadSource::Zero { width: s.width },
        Some(id) => if s.width <= 8 {
            ReadSource::Scalar { id, width: s.width }
        } else {
            ReadSource::Wide { id }
        },
    }
}

pub open spec fn write_plan_spec(e: Endian, s: RegSlot, val: Seq<u8>) -> WritePlan {
    match s.id {
        None => WritePlan::Ignore,
        Some(id) => if s.width <= 8 {
            WritePlan::Scalar { id, value: decoding(e, val) as u64 }
        } else {
            WritePlan::Wide { id }
        },
    }
}

/// Reading every register and writing that buffer straight back is a no-op:
/// the buffer has exactly the layout's length, and the writes it asks for
/// give each engine-backed register the value it was read with, and touch no
/// other register. Only the engine-backed values need fit their widths; the
/// values given for other registers are not transferred.
pub proof fn lemma_read_write_round_trip(e: Endian, slots: Seq<RegSlot>, values: Seq<u64>)
    requires
        values.len() == slots.len(),
        forall|i: int|
            0 <= i < slots.len() && (#[trigger] slots[i]).id.is_some() ==> fits(values[i], slots[i].width as nat),
    ensures
        encode_all(e, slots, values).len() == total_width(slots),
        decoded_writes(e, slots, encode_all(e, slots, values)) == backed_values(slots, values),
    decreases slots.len(),
{
    if slots.len() > 0 {
        let w = slots[0].width as nat;
        let v = shown_value(slots[0], values[0]);
        let head = encoding(e, v, w);
        let rest = encode_all(e, slots.drop_first(), values.drop_first());
        let buf = encode_all(e, slots, values);
        assert forall|i: int|
            0 <= i < slots.drop_first().len() && (#[trigger] slots.drop_first()[i]).id.is_some() implies fits(
            values.drop_first()[i],
            slots.drop_first()[i].width as nat,
        ) by {
            assert(slots[i + 1] == slots.drop_first()[i]);
        }
        lemma_read_write_round_trip(e, slots.drop_first(), values.drop_first());
        lemma_encoding_len(e, v, w);
        assert(buf == head + rest);
        assert(buf.subrange(0, w as int) =~= head);
        assert(buf.subrange(w as int, buf.len() as int) =~= rest);
        if slots[0].id.is_some() {
            assert(slots[0].id.is_some());
            lemma_codec_round_trip(e, v, w);
        }
    }
}

impl RegLayout {
    pub fn new(slots: Vec<RegSlot>, endian: Endian, description: String) -> (r: RegLayout)
        ensures
            r.slots@ == slots@,
            r.endian == endian,
            r.description@ == description@,
    {
        RegLayout { slots, endian, description }
    }

    /// The static target description document.
    pub fn description_xml(&self) -> (r: &str)
        ensures
            r@ == self.description@,
    {
        self.description.as_str()
    }

    /// The slot of protocol register `index`.
    pub fn get_reg(&self, index: usize) -> (r: Result<RegSlot, AdapterError>)
        ensures
            index < self.slots@.len() ==> r == Ok::<RegSlot, AdapterError>(self.slots@[index as int]),
            index >= self.slots@.len() ==> r == Err::<RegSlot, AdapterError>(AdapterError::UnknownRegister),
    {
        if index < self.slots.len() {
            Ok(self.slots[index])
        } else {
            Err(AdapterError::UnknownRegister)
        }
    }

    /// Bytes of `value` in a register `width` bytes wide, in the target's byte order.
    pub fn to_bytes(&self, value: u64, width: usize) -> (r: Vec<u8>)
        ensures
            r@ == encoding(self.endian, value as nat, width as nat),
            r@.len() == width,
    {
        encode_value(self.endian, value, width)
    }

    /// The value that a register's bytes carry, in the target's byte order.
    pub fn from_bytes(&self, bytes: &[u8]) -> (r: u64)
        ensures
            r as nat == decoding(self.endian, bytes@),
    {
        decode_value(self.endian, bytes)
    }

    /// All registers as one buffer, in layout order. `values` holds the
    /// engine's value of each register; those the engine does not back go out
    /// as zero whatever `values` holds for them.
    pub fn encode_registers(&self, values: &Vec<u64>) -> (r: Vec<u8>)
        requires
            values@.len() == self.slots@.len(),
        ensures
            r@ == encode_all(self.endian, self.slots@, values@),
    {
        let mut out: Vec<u8> = Vec::new();
        let n = self.slots.len();
        let mut i: usize = 0;
        assert(self.slots@.skip(0) =~= self.slots@);
        assert(values@.skip(0) =~= values@);
        while i < n
            invariant
                n == self.slots@.len(),
                values@.len() == n,
                i <= n,
                out@ + encode_all(self.endian, self.slots@.skip(i as int), values@.skip(i as int))
                    == encode_all(self.endian, self.slots@, values@),
            decreases n - i,
        {
            let slot = self.slots[i];
            let v: u64 = match slot.id {
                Some(_) => values[i],
                None => 0,
            };
            let mut bytes = encode_value(self.endian, v, slot.width);
            let ghost before = out@;
            let ghost chunk = bytes@;
            assert(self.slots@.skip(i as int).drop_first() =~= self.slots@.skip(i + 1));
            assert(values@.skip(i as int).drop_first() =~= values@.skip(i + 1));
            out.append(&mut bytes);
            i = i + 1;
            assert(before + (chunk + encode_all(self.endian, self.slots@.skip(i as int), values@.skip(i as int)))
                =~= out@ + encode_all(self.endian, self.slots@.skip(i as int), values@.skip(i as int)));
        }
        assert(out@ =~= out@ + encode_all(self.endian, self.slots@.skip(n as int), values@.skip(n as int)));
        out
    }

    /// The engine writes that `buf` asks for, register after register. The
    /// buffer must hold exactly the layout's bytes: any other length is a
    /// desync and nothing is written.
    pub fn decode_registers(&self, buf: &[u8]) -> (r: Result<Vec<(i32, u64)>, AdapterError>)
        ensures
            buf@.len() != total_width(self.slots@) ==> r == Err::<Vec<(i32, u64)>, AdapterError>(
                AdapterError::ProtocolDesync,
            ),
            buf@.len() == total_width(self.slots@) ==> r.is_ok() && r.unwrap()@ == decoded_writes(
                self.endian,
                self.slots@,
                buf@,
            ),
    {
        let n = self.slots.len();
        let len = buf.len();
        let mut total: usize = 0;
        let mut i: usize = 0;
        assert(self.slots@.skip(0) =~= self.slots@);
        while i < n
            invariant
                n == self.slots@.len(),
                len == buf@.len(),
                i <= n,
                total <= len,
                total + total_width(self.slots@.skip(i as int)) == total_width(self.slots@),
            decreases n - i,
        {
            let w = self.slots[i].width;
            assert(self.slots@.skip(i as int).drop_first() =~= self.slots@.skip(i + 1));
            if w > len - total {
                return Err(AdapterError::ProtocolDesync);
            }
            total = total + w;
            i = i + 1;
        }
        assert(self.slots@.skip(n as int) =~= Seq::<RegSlot>::empty());
        if total != len {
            return Err(AdapterError::ProtocolDesync);
        }
        let mut writes: Vec<(i32, u64)> = Vec::new();
        let mut off: usize = 0;
        i = 0;
        assert(buf@.subrange(0, len as int) =~= buf@);
        while i < n
            invariant
                n == self.slots@.len(),
                len == buf@.len(),
                i <= n,
                off <= len,
                off + total_width(self.slots@.skip(i as int)) == len,
                writes@ + decoded_writes(self.endian, self.slots@.skip(i as int), buf@.subrange(off as int, len as int))
                    == decoded_writes(self.endian, self.slots@, buf@),
            decreases n - i,
        {
            let slot = self.slots[i];
            let w = slot.width;
            let ghost rest = buf@.subrange(off as int, len as int);
            let ghost before = writes@;
            assert(self.slots@.skip(i as int).drop_first() =~= self.slots@.skip(i + 1));
            assert(rest.subrange(w as int, rest.len() as int) =~= buf@.subrange(off + w, len as int));
            let part = vstd::slice::slice_subrange(buf, off, off + w);
            assert(part@ =~= rest.subrange(0, w as int));
            match slot.id {
                Some(id) => {
                    let v = decode_value(self.endian, part);
                    writes.push((id, v));
                },
                None => {},
            }
            off = off + w;
            i = i + 1;
            assert(writes@ + decoded_writes(self.endian, self.slots@.skip(i as int), buf@.subrange(off as int, len as int))
                =~= decoded_writes(self.endian, self.slots@, buf@));
        }
        assert(writes@ =~= writes@ + decoded_writes(self.endian, self.slots@.skip(n as int), buf@.subrange(off as int, len as int)));
        Ok(writes)
    }

    /// Where a read of protocol register `index` takes its bytes from.
    pub fn read_source(&self, index: usize) -> (r: Result<ReadSource, AdapterError>)
        ensures
            index < self.slots@.len() ==> r == Ok::<ReadSource, AdapterError>(read_source_spec(self.slots@[index as int])),
            index >= self.slots@.len() ==> r == Err::<ReadSource, AdapterError>(AdapterError::UnknownRegister),
    {
        let slot = self.get_reg(index)?;
        match slot.id {
            None => Ok(ReadSource::Zero { width: slot.width }),
            Some(id) => if slot.width <= 8 {
                Ok(ReadSource::Scalar { id, width: slot.width })
            } else {
                Ok(ReadSource::Wide { id })
            },
        }
    }

    /// What writing `val` to protocol register `index` does. A value whose
    /// length is not the register's width is a desync.
    pub fn write_plan(&self, index: usize, val: &[u8]) -> (r: Result<WritePlan, AdapterError>)
        ensures
            index >= self.slots@.len() ==> r == Err::<WritePlan, AdapterError>(AdapterError::UnknownRegister),
            index < self.slots@.len() && self.slots@[index as int].width != val@.len() ==> r == Err::<
                WritePlan,
                AdapterError,
            >(AdapterError::ProtocolDesync),
            index < self.slots@.len() && self.slots@[index as int].width == val@.len() ==> r == Ok::<
                WritePlan,
                AdapterError,
            >(write_plan_spec(self.endian, self.slots@[index as int], val@)),
    {
        let slot = self.get_reg(index)?;
        if slot.width != val.len() {
            return Err(AdapterError::ProtocolDesync);
        }
        match slot.id {
            None => Ok(WritePlan::Ignore),
            Some(id) => if slot.width <= 8 {
                Ok(WritePlan::Scalar { id, value: decode_value(self.endian, val) })
            } else {
                Ok(WritePlan::Wide { id })
            },
        }
    }
}

} // verus!
