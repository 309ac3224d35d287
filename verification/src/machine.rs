use vstd::prelude::*;
use crate::{Token, TokenV};
use crate::types::{Line, LineV, OperandV, is_label};

verus! {

/// The three independent relocatability properties of one machine word.
#[derive(Clone, Copy, Debug, PartialEq, Eq, Structural)]
pub struct MachineAddressProperties {
    /// The address of this word shifts when the image is rebased.
    pub line_relocatable: bool,
    /// The operand field of this word shifts when the image is rebased.
    pub operand_relocatable: bool,
    /// The operand referred to an imported label; cleared on resolution.
    pub imported: bool,
}

impl MachineAddressProperties {
    pub fn new(line_relocatable: bool, operand_relocatable: bool, imported: bool)
        -> (r: MachineAddressProperties)
        ensures
            r == (MachineAddressProperties { line_relocatable, operand_relocatable, imported }),
    {
        MachineAddressProperties { line_relocatable, operand_relocatable, imported }
    }
}

/// A 16-bit absolute address together with its relocatability properties.
#[derive(Clone, Copy, Debug, PartialEq, Eq, Structural)]
pub struct MachineAddress {
    pub properties: MachineAddressProperties,
    pub position: u16,
}

impl MachineAddress {
    pub fn new(properties: MachineAddressProperties, position: u16) -> (r: MachineAddress)
        ensures
            r == (MachineAddress { properties, position }),
    {
        MachineAddress { properties, position }
    }
}

impl View for MachineAddress {
    type V = MachineAddress;

    open spec fn view(&self) -> MachineAddress {
        *self
    }
}

/// The value of the property bits as the top nibble of a serialized address
/// word: `{0, imported, operand_relocatable, line_relocatable}`, the three
/// tag bits in positions 14, 13 and 12.
pub open spec fn props_value(p: MachineAddressProperties) -> u16 {
    ((if p.imported { 4u16 } else { 0u16 })
        + (if p.operand_relocatable { 2u16 } else { 0u16 })
        + (if p.line_relocatable { 1u16 } else { 0u16 })) as u16
}

/// Properties with no bit set: the tags of a final absolute image.
pub open spec fn no_props() -> MachineAddressProperties {
    MachineAddressProperties { line_relocatable: false, operand_relocatable: false, imported: false }
}

/// The instruction word of one machine line: a 4-bit opcode and a 12-bit
/// operand, each with the position it was read from.
#[derive(Clone, Copy, Debug, PartialEq, Eq)]
pub struct Operation {
    pub instruction: Token<u8>,
    pub operand: Token<u16>,
}

impl Operation {
    pub fn new(instruction: Token<u8>, operand: Token<u16>) -> (r: Operation)
        ensures
            r.instruction == instruction,
            r.operand == operand,
    {
        Operation { instruction, operand }
    }
}

/// One emitted machine word: its address with tags, its instruction word,
/// and any attached relational annotation.
#[derive(Clone, Debug, PartialEq, Eq)]
pub struct AddressedLine {
    pub address: Token<MachineAddress>,
    pub operation: Operation,
    pub relational_annotation: Option<Line>,
}

/// Mathematical model of a machine line.
pub struct ALineV {
    pub address: TokenV<MachineAddress>,
    pub instruction: TokenV<u8>,
    pub operand: TokenV<u16>,
    pub annotation: Option<LineV>,
}

/// The model of the optional annotation of a machine line.
pub open spec fn opt_line_view(o: Option<Line>) -> Option<LineV> {
    match o {
        Some(l) => Some(l@),
        None => None,
    }
}

impl View for AddressedLine {
    type V = ALineV;

    open spec fn view(&self) -> ALineV {
        ALineV {
            address: TokenV { position: self.address.position, value: self.address.value },
            instruction: TokenV {
                position: self.operation.instruction.position,
                value: self.operation.instruction.value,
            },
            operand: TokenV {
                position: self.operation.operand.position,
                value: self.operation.operand.value,
            },
            annotation: opt_line_view(self.relational_annotation),
        }
    }
}

/// Whether an annotation has the shape the object format allows:
/// `> IDENT` or `< IDENT`, with no leading label.
pub open spec fn annotation_wf(a: LineV) -> bool {
    &&& a.label is None
    &&& a.operation.instruction.value is Relational
    &&& match a.operation.operand.value {
            OperandV::Symbolic(s) => is_label(s),
            OperandV::Numeric(_) => false,
        }
}

/// Whether a machine line is well formed: opcode and operand fit their
/// fields, a tagged address fits twelve bits, and any annotation is a
/// relational line over an identifier.
pub open spec fn line_wf(l: ALineV) -> bool {
    &&& l.instruction.value < 0x10
    &&& l.operand.value < 0x1000
    &&& (props_value(l.address.value.properties) != 0 ==> l.address.value.position < 0x1000)
    &&& match l.annotation {
            Some(a) => annotation_wf(a),
            None => true,
        }
}

/// Whether a machine line may stand in a relocatable unit: well formed with
/// a twelve-bit address field.
pub open spec fn line_unit_wf(l: ALineV) -> bool {
    line_wf(l) && l.address.value.position < 0x1000
}

/// Whether a tag-preserving shift by `base` keeps both fields within their
/// twelve-bit fields.
pub open spec fn shift_ok(l: ALineV, base: u16) -> bool {
    &&& (l.address.value.properties.line_relocatable
        ==> l.address.value.position + base < 0x1000)
    &&& (l.address.value.properties.operand_relocatable ==> l.operand.value + base < 0x1000)
}

/// The linker's transform: add `base` to the address if the line is
/// relocatable and to the operand if the operand is, keeping every tag and
/// annotation.
pub open spec fn spec_shift_line(l: ALineV, base: u16) -> ALineV
    recommends
        shift_ok(l, base),
{
    ALineV {
        address: TokenV {
            position: l.address.position,
            value: MachineAddress {
                properties: l.address.value.properties,
                position: if l.address.value.properties.line_relocatable {
                    (l.address.value.position + base) as u16
                } else {
                    l.address.value.position
                },
            },
        },
        instruction: l.instruction,
        operand: TokenV {
            position: l.operand.position,
            value: if l.address.value.properties.operand_relocatable {
                (l.operand.value + base) as u16
            } else {
                l.operand.value
            },
        },
        annotation: l.annotation,
    }
}

/// Whether rebinding by `base` stays within sixteen bits for the address
/// and within the twelve-bit operand field.
pub open spec fn reloc_ok(l: ALineV, base: u16) -> bool {
    &&& (l.address.value.properties.line_relocatable
        ==> l.address.value.position + base < 0x10000)
    &&& (l.address.value.properties.operand_relocatable ==> l.operand.value + base < 0x1000)
}

/// The relocator's transform: shift the tagged fields by `base`, clear all
/// three tags and strip the annotation; the line is absolute afterwards.
pub open spec fn spec_relocate_line(l: ALineV, base: u16) -> ALineV
    recommends
        reloc_ok(l, base),
{
    ALineV {
        address: TokenV {
            position: l.address.position,
            value: MachineAddress {
                properties: no_props(),
                position: if l.address.value.properties.line_relocatable {
                    (l.address.value.position + base) as u16
                } else {
                    l.address.value.position
                },
            },
        },
        instruction: l.instruction,
        operand: TokenV {
            position: l.operand.position,
            value: if l.address.value.properties.operand_relocatable {
                (l.operand.value + base) as u16
            } else {
                l.operand.value
            },
        },
        annotation: None,
    }
}

/// A pass that rebinds a value to an absolute load base.
pub trait Relocate: Sized {
    /// What rebinding returns, stated by each implementor.
    spec fn relocate_spec(self, base: u16) -> Self;

    /// Rebind to `base`; the result is fixed by `relocate_spec`.
    fn relocate(self, base: u16) -> (r: Self)
        ensures
            r == self.relocate_spec(base),
    ;
}

impl AddressedLine {
    pub fn new(
        address: Token<MachineAddress>,
        operation: Operation,
        relational_annotation: Option<Line>,
    ) -> (r: AddressedLine)
        ensures
            r.address == address,
            r.operation == operation,
            r.relational_annotation == relational_annotation,
    {
        AddressedLine { address, operation, relational_annotation }
    }

    /// Take the line apart into the label its annotation names and the
    /// operand value of the line itself.
    pub fn destruct(self) -> (r: (crate::types::Label, u16))
        requires
            self@.annotation matches Some(a)
                && a.operation.operand.value is Symbolic,
        ensures
            self@.annotation matches Some(a)
                && a.operation.operand.value == OperandV::Symbolic(r.0@)
                && r.1 == self@.operand.value,
    {
        let annotation = match self.relational_annotation {
            Some(a) => a,
            None => { unreached() }
        };
        let label = match annotation.operation.operand.value {
            crate::types::Operand::Symbolic(l) => l,
            crate::types::Operand::Numeric(_) => { unreached() }
        };
        (label, self.operation.operand.value)
    }

    /// The linker's shift of one line: tags and annotation kept.
    pub fn shifted(self, base: u16) -> (r: AddressedLine)
        requires
            shift_ok(self@, base),
        ensures
            r@ == spec_shift_line(self@, base),
    {
        let props = self.address.value.properties;
        let position = if props.line_relocatable {
            self.address.value.position + base
        } else {
            self.address.value.position
        };
        let operand_value = if props.operand_relocatable {
            self.operation.operand.value + base
        } else {
            self.operation.operand.value
        };
        AddressedLine {
            address: Token {
                position: self.address.position,
                value: MachineAddress { properties: props, position },
            },
            operation: Operation {
                instruction: self.operation.instruction,
                operand: Token {
                    position: self.operation.operand.position,
                    value: operand_value,
                },
            },
            relational_annotation: self.relational_annotation,
        }
    }

    /// The relocator's rebinding of one line: tags cleared, annotation
    /// stripped.
    pub fn relocated(self, base: u16) -> (r: AddressedLine)
        requires
            reloc_ok(self@, base),
        ensures
            r@ == spec_relocate_line(self@, base),
    {
        let props = self.address.value.properties;
        let position = if props.line_relocatable {
            self.address.value.position + base
        } else {
            self.address.value.position
        };
        let operand_value = if props.operand_relocatable {
            self.operation.operand.value + base
        } else {
            self.operation.operand.value
        };
        AddressedLine {
            address: Token {
                position: self.address.position,
                value: MachineAddress {
                    properties: MachineAddressProperties {
                        line_relocatable: false,
                        operand_relocatable: false,
                        imported: false,
                    },
                    position,
                },
            },
            operation: Operation {
                instruction: self.operation.instruction,
                operand: Token {
                    position: self.operation.operand.position,
                    value: operand_value,
                },
            },
            relational_annotation: None,
        }
    }
}

impl Relocate for AddressedLine {
    /// The tag-preserving shift, total over all inputs: the address rises
    /// by `base` where the line is relocatable and the operand where the
    /// operand is, each modulo 2^16; the three tags, the opcode, the
    /// annotation and every position are returned exactly as given. The
    /// checked, non-wrapping passes stand in `shifted` and `relocated`.
    open spec fn relocate_spec(self, base: u16) -> AddressedLine {
        AddressedLine {
            address: Token {
                position: self.address.position,
                value: MachineAddress {
                    properties: self.address.value.properties,
                    position: if self.address.value.properties.line_relocatable {
                        ((self.address.value.position + base) % 0x10000) as u16
                    } else {
                        self.address.value.position
                    },
                },
            },
            operation: Operation {
                instruction: self.operation.instruction,
                operand: Token {
                    position: self.operation.operand.position,
                    value: if self.address.value.properties.operand_relocatable {
                        ((self.operation.operand.value + base) % 0x10000) as u16
                    } else {
                        self.operation.operand.value
                    },
                },
            },
            relational_annotation: self.relational_annotation,
        }
    }

    fn relocate(self, base: u16) -> (r: AddressedLine) {
        let props = self.address.value.properties;
        let position = if props.line_relocatable {
            ((self.address.value.position as u32 + base as u32) % 0x10000) as u16
        } else {
            self.address.value.position
        };
        let operand_value = if props.operand_relocatable {
            ((self.operation.operand.value as u32 + base as u32) % 0x10000) as u16
        } else {
            self.operation.operand.value
        };
        AddressedLine {
            address: Token {
                position: self.address.position,
                value: MachineAddress { properties: props, position },
            },
            operation: Operation {
                instruction: self.operation.instruction,
                operand: Token {
                    position: self.operation.operand.position,
                    value: operand_value,
                },
            },
            relational_annotation: self.relational_annotation,
        }
    }
}

/// Where the shift stays within the twelve-bit fields, the trait's
/// rebinding is exactly the linker's shift.
pub proof fn lemma_relocate_spec_matches_shift(l: AddressedLine, base: u16)
    requires
        shift_ok(l@, base),
    ensures
        l.relocate_spec(base)@ == spec_shift_line(l@, base),
{
}

/// Rebinding by base zero returns every field exactly as given: the tags
/// clear only in the relocator's own pass.
pub proof fn lemma_relocate_spec_zero(l: AddressedLine)
    ensures
        l.relocate_spec(0) == l,
        l.relocate_spec(0)@ == l@,
{
    assert(l.relocate_spec(0).address == l.address);
    assert(l.relocate_spec(0).operation == l.operation);
    assert(l.relocate_spec(0).relational_annotation == l.relational_annotation);
}

/// The trait's rebinding changes at most the two numeric fields: the three
/// tags, the opcode, the annotation and every position are returned as
/// given, and an untagged field does not move.
pub proof fn lemma_relocate_spec_frame(l: AddressedLine, base: u16)
    ensures
        l.relocate_spec(base).address.value.properties == l.address.value.properties,
        l.relocate_spec(base).address.position == l.address.position,
        l.relocate_spec(base).operation.instruction == l.operation.instruction,
        l.relocate_spec(base).operation.operand.position == l.operation.operand.position,
        l.relocate_spec(base).relational_annotation == l.relational_annotation,
        !l.address.value.properties.line_relocatable
            ==> l.relocate_spec(base).address.value.position == l.address.value.position,
        !l.address.value.properties.operand_relocatable
            ==> l.relocate_spec(base).operation.operand.value == l.operation.operand.value,
        l.address.value.properties.line_relocatable
            && l.address.value.position + base < 0x10000
            ==> l.relocate_spec(base).address.value.position
                == l.address.value.position + base,
        l.address.value.properties.operand_relocatable
            && l.operation.operand.value + base < 0x10000
            ==> l.relocate_spec(base).operation.operand.value
                == l.operation.operand.value + base,
{
}

/// Rebinding twice composes: the tag-preserving shift by one base and then
/// by another equals one shift by the sum of the bases.
pub proof fn lemma_relocate_spec_additive(l: AddressedLine, b1: u16, b2: u16)
    requires
        b1 + b2 < 0x10000,
    ensures
        l.relocate_spec(b2).relocate_spec(b1) == l.relocate_spec((b1 + b2) as u16),
{
    let p = l.address.value.position as int;
    let q = l.operation.operand.value as int;
    lemma_mod_add_in_order(p, b2 as int, b1 as int);
    lemma_mod_add_in_order(q, b2 as int, b1 as int);
}

/// Adding to a sum already reduced modulo 2^16 lands where adding the whole
/// sum lands.
proof fn lemma_mod_add_in_order(p: int, b2: int, b1: int)
    requires
        0 <= p,
        0 <= b1 < 0x10000,
        0 <= b2,
    ensures
        ((p + b2) % 0x10000 + b1) % 0x10000 == (p + b2 + b1) % 0x10000,
{
    vstd::arithmetic::div_mod::lemma_small_mod(b1 as nat, 0x10000);
    vstd::arithmetic::div_mod::lemma_add_mod_noop(p + b2, b1, 0x10000);
}

/// Rebasing with base zero changes no field: it only clears the tags and
/// strips the annotation.
pub proof fn lemma_relocate_zero_is_identity(l: ALineV)
    ensures
        spec_relocate_line(l, 0) == (ALineV {
            address: TokenV {
                position: l.address.position,
                value: MachineAddress {
                    properties: no_props(),
                    position: l.address.value.position,
                },
            },
            instruction: l.instruction,
            operand: l.operand,
            annotation: None,
        }),
{
}

/// The linker's shift by one base followed by relocation by another equals
/// relocation by their sum.
pub proof fn lemma_relocate_additive(l: ALineV, b1: u16, b2: u16)
    requires
        b1 + b2 < 0x10000,
        shift_ok(l, b2),
        reloc_ok(l, (b1 + b2) as u16),
    ensures
        reloc_ok(spec_shift_line(l, b2), b1),
        spec_relocate_line(spec_shift_line(l, b2), b1)
            == spec_relocate_line(l, (b1 + b2) as u16),
{
}

} // verus!
