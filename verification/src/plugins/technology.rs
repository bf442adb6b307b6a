//! Logic gate designs: how many transistors each gate takes.
use vstd::prelude::*;

verus! {

/// Kinds of logic gate
#[derive(Clone, Copy, Debug, PartialEq, Eq, Structural)]
pub enum LogicGateType {
    NOT,
    AND,
    OR,
    NAND,
    NOR,
    XOR,
}

/// The number of transistors a gate of this kind is built from.
pub open spec fn spec_gate_component_count(gate: LogicGateType) -> usize {
    match gate {
        LogicGateType::NOT => 1,
        LogicGateType::AND => 2,
        LogicGateType::OR => 2,
        LogicGateType::NAND => 3,
        LogicGateType::NOR => 3,
        LogicGateType::XOR => 4,
    }
}

/// The name of a gate design and the number of transistors it is built from.
pub fn logic_gate_layout(gate_type: LogicGateType) -> (r: (&'static str, usize))
    ensures
        r.0@ == match gate_type {
            LogicGateType::NOT => "NOT Gate"@,
            LogicGateType::AND => "AND Gate"@,
            LogicGateType::OR => "OR Gate"@,
            LogicGateType::NAND => "NAND Gate"@,
            LogicGateType::NOR => "NOR Gate"@,
            LogicGateType::XOR => "XOR Gate"@,
        },
        r.1 == spec_gate_component_count(gate_type),
        gate_type == LogicGateType::NOT ==> r.1 == 1,
        gate_type == LogicGateType::AND || gate_type == LogicGateType::OR ==> r.1 == 2,
        gate_type == LogicGateType::NAND || gate_type == LogicGateType::NOR ==> r.1 == 3,
        gate_type == LogicGateType::XOR ==> r.1 == 4,
{
    match gate_type {
        LogicGateType::NOT => ("NOT Gate", 1),
        LogicGateType::AND => ("AND Gate", 2),
        LogicGateType::OR => ("OR Gate", 2),
        LogicGateType::NAND => ("NAND Gate", 3),
        LogicGateType::NOR => ("NOR Gate", 3),
        LogicGateType::XOR => ("XOR Gate", 4),
    }
}

/// Law: the transistor counts of the gates: one for NOT, two for AND and
/// OR, three for NAND and NOR, four for XOR.
pub proof fn law_gate_transistors(gate: LogicGateType)
    ensures
        gate == LogicGateType::NOT ==> spec_gate_component_count(gate) == 1,
        gate == LogicGateType::AND || gate == LogicGateType::OR ==> spec_gate_component_count(gate) == 2,
        gate == LogicGateType::NAND || gate == LogicGateType::NOR ==> spec_gate_component_count(gate) == 3,
        gate == LogicGateType::XOR ==> spec_gate_component_count(gate) == 4,
{
}

} // verus!
