//! NAL unit headers and the writer that starts a unit with one.

use crate::rbsp::RbspWriter;
use crate::sink::{lemma_refused_byte, write_u8, ByteSink, WriteError};
use vstd::prelude::*;

verus! {

/// The identifier of the unit type that carries supplemental enhancement information.
pub const SEI_UNIT_TYPE_ID: u8 = 6;

/// The identifier of the unit type of a coded slice of an IDR picture.
pub const IDR_UNIT_TYPE_ID: u8 = 5;

/// The type of a NAL unit, known by its identifier.
#[derive(Clone, Copy, Debug)]
pub struct UnitType {
    id: u8,
}

impl UnitType {
    /// The identifier of the type.
    pub closed spec fn spec_id(self) -> u8 {
        self.id
    }

    /// The unit type with the identifier `id`, whatever its value.
    pub fn from_id(id: u8) -> (unit_type: UnitType)
        ensures
            unit_type.spec_id() == id,
    {
        UnitType { id }
    }

    /// The unit type of supplemental enhancement information.
    pub fn sei() -> (unit_type: UnitType)
        ensures
            unit_type.spec_id() == SEI_UNIT_TYPE_ID,
    {
        UnitType { id: SEI_UNIT_TYPE_ID }
    }

    /// The identifier of the type.
    #[verifier::when_used_as_spec(spec_id)]
    pub fn id(self) -> (id: u8)
        ensures
            id == self.spec_id(),
    {
        self.id
    }
}

/// Why a unit type and a reference indicator make no header.
#[derive(Clone, Copy, Debug)]
pub enum NalHeaderError {
    /// The reference indicator does not fit in two bits.
    NalRefIdcOutOfRange(u8),
    /// The unit type does not go with the reference indicator.
    InvalidNalRefIdcForNalUnitType { nal_unit_type: UnitType, nal_ref_idc: u8 },
    /// The identifier of the unit type is zero or does not fit in five bits.
    NalUnitTypeOutOfRange(UnitType),
}

/// Whether units of the type `id` must carry the reference indicator zero.
pub open spec fn never_referenced(id: u8) -> bool {
    id == 6 || id == 9 || id == 10 || id == 11 || id == 12
}

/// What is wrong with a header of `nal_unit_type` and `nal_ref_idc`, if anything.
///
/// The reference indicator is looked at first, then the range of the type,
/// then whether the two go together: the types that are never referenced
/// need the indicator zero, and an IDR slice needs it above zero.
pub open spec fn header_fault(nal_unit_type: UnitType, nal_ref_idc: u8) -> Option<NalHeaderError> {
    let id = nal_unit_type.spec_id();
    if nal_ref_idc >= 4 {
        Some(NalHeaderError::NalRefIdcOutOfRange(nal_ref_idc))
    } else if id == 0 || id >= 32 {
        Some(NalHeaderError::NalUnitTypeOutOfRange(nal_unit_type))
    } else if (never_referenced(id) && nal_ref_idc != 0) || (id == IDR_UNIT_TYPE_ID && nal_ref_idc
        == 0) {
        Some(NalHeaderError::InvalidNalRefIdcForNalUnitType { nal_unit_type, nal_ref_idc })
    } else {
        None
    }
}

/// The header byte: the forbidden bit zero, then the two bits of the
/// reference indicator, then the five bits of the unit type.
pub open spec fn header_byte(id: u8, nal_ref_idc: u8) -> u8 {
    (nal_ref_idc << 5) | (id & 0x1f)
}

/// The first byte of a NAL unit: its type and its reference indicator.
#[derive(Clone, Copy, Debug)]
pub struct NalHeader {
    nal_unit_type: UnitType,
    nal_ref_idc: u8,
}

impl NalHeader {
    /// The unit type of the header.
    pub closed spec fn nal_unit_type(self) -> UnitType {
        self.nal_unit_type
    }

    /// The reference indicator of the header.
    pub closed spec fn nal_ref_idc(self) -> u8 {
        self.nal_ref_idc
    }

    /// Every header is one that [`header_fault`] finds no fault with.
    #[verifier::type_invariant]
    pub closed spec fn valid(self) -> bool {
        header_fault(self.nal_unit_type, self.nal_ref_idc) is None
    }

    /// The byte that the header is written as.
    pub open spec fn byte(self) -> u8 {
        header_byte(self.nal_unit_type().spec_id(), self.nal_ref_idc())
    }

    /// Makes a header, or says what is wrong with the two values.
    pub fn from_nal_unit_type_and_nal_ref_idc(nal_unit_type: UnitType, nal_ref_idc: u8) -> (r:
        Result<NalHeader, NalHeaderError>)
        ensures
            match r {
                Ok(header) => {
                    &&& header_fault(nal_unit_type, nal_ref_idc) is None
                    &&& header.nal_unit_type() == nal_unit_type
                    &&& header.nal_ref_idc() == nal_ref_idc
                },
                Err(e) => header_fault(nal_unit_type, nal_ref_idc) == Some(e),
            },
    {
        if nal_ref_idc >= 4 {
            return Err(NalHeaderError::NalRefIdcOutOfRange(nal_ref_idc));
        }
        let id = nal_unit_type.id();
        if id == 0 {
            Err(NalHeaderError::NalUnitTypeOutOfRange(nal_unit_type))
        } else if id == 6 || id == 9 || id == 10 || id == 11 || id == 12 {
            if nal_ref_idc == 0 {
                Ok(NalHeader { nal_unit_type, nal_ref_idc })
            } else {
                Err(NalHeaderError::InvalidNalRefIdcForNalUnitType { nal_unit_type, nal_ref_idc })
            }
        } else if id == 5 {
            if nal_ref_idc != 0 {
                Ok(NalHeader { nal_unit_type, nal_ref_idc })
            } else {
                Err(NalHeaderError::InvalidNalRefIdcForNalUnitType { nal_unit_type, nal_ref_idc })
            }
        } else if id >= 32 {
            Err(NalHeaderError::NalUnitTypeOutOfRange(nal_unit_type))
        } else {
            Ok(NalHeader { nal_unit_type, nal_ref_idc })
        }
    }

    /// The byte that the header is written as.
    pub fn as_header_byte(&self) -> (byte: u8)
        ensures
            byte == self.byte(),
            byte == self.nal_ref_idc() * 32 + self.nal_unit_type().spec_id(),
            byte != 0,
    {
        proof {
            use_type_invariant(self);
        }
        let idc = self.nal_ref_idc;
        let id = self.nal_unit_type.id();
        assert((idc << 5) | (id & 0x1f) == idc * 32 + id) by (bit_vector)
            requires
                idc < 4,
                id < 32,
        ;
        (idc << 5) | (id & 0x1f)
    }
}

/// The start of a NAL unit: a sink that waits for the header byte.
pub struct NalUnitWriter<W: ByteSink> {
    inner: W,
}

impl<W: ByteSink> NalUnitWriter<W> {
    /// The sink that the unit goes to.
    pub closed spec fn sink(&self) -> W {
        self.inner
    }

    /// Starts a NAL unit on `inner`.
    pub fn new(inner: W) -> (writer: Self)
        ensures
            writer.sink() == inner,
    {
        Self { inner }
    }
}

/// Something that NAL units can be started on, one after the other.
pub trait H264ByteStreamWrite<W: ByteSink>: Sized {
    /// What a started unit is written to.
    type Writer;

    /// Whether a unit can be started.
    spec fn ready(&self) -> bool;

    /// Starts a NAL unit.
    fn start_write_nal_unit(self) -> (r: Result<Self::Writer, WriteError>)
        requires
            self.ready(),
        ensures
            r matches Err(e) ==> e is NalUnitTooLarge,
    ;
}

/// A NAL unit that waits for its header.
pub trait NalUnitWrite<W: ByteSink>: Sized {
    /// What the payload of the unit is written to.
    type Writer;

    /// Whether the header can be written.
    spec fn ready(&self) -> bool;

    /// Writes the header byte and hands out the writer of the payload.
    fn write_nal_header(self, nal_header: NalHeader) -> (r: Result<Self::Writer, WriteError>)
        requires
            self.ready(),
        ensures
            r matches Err(e) ==> e is NalUnitTooLarge,
    ;
}

impl<W: ByteSink> H264ByteStreamWrite<W> for W {
    type Writer = NalUnitWriter<W>;

    /// A sink is ready when it is sound.
    open spec fn ready(&self) -> bool {
        self.inv()
    }

    /// Starts a NAL unit on the bare sink: nothing is written.
    fn start_write_nal_unit(self) -> (r: Result<NalUnitWriter<W>, WriteError>)
        ensures
            r matches Ok(writer) && writer.sink() == self,
    {
        Ok(NalUnitWriter::new(self))
    }
}

impl<W: ByteSink> NalUnitWrite<W> for NalUnitWriter<W> {
    type Writer = RbspWriter<W>;

    /// The unit is ready when its sink is sound.
    open spec fn ready(&self) -> bool {
        self.sink().inv()
    }

    /// Writes the header byte and hands out the writer of the payload.
    ///
    /// The header byte is no part of the payload: it is not escaped and does
    /// not count for the window of the payload writer.
    fn write_nal_header(self, nal_header: NalHeader) -> (r: Result<RbspWriter<W>, WriteError>)
        ensures
            r is Ok <==> self.sink().holds(self.sink().taken().push(nal_header.byte())),
            r matches Ok(writer) ==> {
                &&& writer.inv()
                &&& writer.base() == self.sink().taken().push(nal_header.byte())
                &&& writer.taken() == Seq::<u8>::empty()
                &&& writer.sink().follows(&self.sink())
            },
            r matches Err(e) ==> e == self.sink().refusal(
                self.sink().taken().push(nal_header.byte()),
            ),
    {
        let mut inner = self.inner;
        let byte = nal_header.as_header_byte();
        assert(self.sink().taken() + seq![byte] =~= self.sink().taken().push(byte));
        match write_u8(&mut inner, byte) {
            Ok(()) => Ok(RbspWriter::new(inner)),
            Err(e) => {
                proof {
                    lemma_refused_byte(self.inner, byte, e);
                }
                Err(e)
            },
        }
    }
}

} // verus!
