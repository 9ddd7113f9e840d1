//! Which vector unit the throughput benchmark drives, and what it counts per instruction.

use vstd::prelude::*;

verus! {

/// Family of the processor.
#[derive(Clone, Copy, Debug, PartialEq, Eq, Structural)]
pub enum Arch {
    /// 64-bit x86.
    X86,
    /// 64-bit ARM.
    Arm,
    /// Anything else.
    Other,
}

/// What the benchmark has to know of the processor.
#[derive(Clone, Copy, Debug, PartialEq, Eq, Structural)]
pub struct Cpu {
    /// Family of the processor.
    pub arch: Arch,
    /// It has 512-bit vectors.
    pub avx512f: bool,
    /// It has 256-bit integer vectors.
    pub avx2: bool,
    /// It has 128-bit vectors.
    pub sse: bool,
}

/// The vector unit to drive.
#[derive(Clone, Copy, Debug, PartialEq, Eq, Structural)]
pub enum ComputeMode {
    /// 512-bit vectors of an x86 processor.
    Avx512,
    /// 256-bit vectors of an x86 processor.
    Avx2,
    /// 128-bit vectors of an x86 processor.
    Sse,
    /// 128-bit vectors of an ARM processor.
    Neon,
    /// No vectors.
    Scalar,
}

/// Name of a mode of an x86 processor.
pub fn mode_name(mode: ComputeMode) -> (name: &'static str)
    requires
        mode != ComputeMode::Neon,
    ensures
        mode == ComputeMode::Avx512 ==> name@ == "AVX-512 (512-bit, 16×f32)"@,
        mode == ComputeMode::Avx2 ==> name@ == "AVX2 (256-bit, 8×f32)"@,
        mode == ComputeMode::Sse ==> name@ == "SSE (128-bit, 4×f32)"@,
        mode == ComputeMode::Scalar ==> name@ == "Scalar (no SIMD)"@,
{
    match mode {
        ComputeMode::Avx512 => "AVX-512 (512-bit, 16×f32)",
        ComputeMode::Avx2 => "AVX2 (256-bit, 8×f32)",
        ComputeMode::Sse => "SSE (128-bit, 4×f32)",
        _ => "Scalar (no SIMD)",
    }
}

/// The widest vector unit that a processor has.
pub fn select_mode(cpu: &Cpu) -> (mode: ComputeMode)
    ensures
        mode == ComputeMode::Avx512 <==> cpu.arch == Arch::X86 && cpu.avx512f,
        mode == ComputeMode::Avx2 <==> cpu.arch == Arch::X86 && !cpu.avx512f && cpu.avx2,
        mode == ComputeMode::Sse <==> cpu.arch == Arch::X86 && !cpu.avx512f && !cpu.avx2 && cpu.sse,
        mode == ComputeMode::Neon <==> cpu.arch == Arch::Arm,
{
    match cpu.arch {
        Arch::X86 => if cpu.avx512f {
            ComputeMode::Avx512
        } else if cpu.avx2 {
            ComputeMode::Avx2
        } else if cpu.sse {
            ComputeMode::Sse
        } else {
            ComputeMode::Scalar
        },
        Arch::Arm => ComputeMode::Neon,
        Arch::Other => ComputeMode::Scalar,
    }
}

/// Bits of a vector register of a mode; a scalar counts as one lane.
pub open spec fn vector_bits(mode: ComputeMode) -> int {
    match mode {
        ComputeMode::Avx512 => 512,
        ComputeMode::Avx2 => 256,
        ComputeMode::Sse => 128,
        ComputeMode::Neon => 128,
        ComputeMode::Scalar => 32,
    }
}

/// Operations that one instruction performs: one per 32-bit lane.
pub fn ops_per_instruction(mode: ComputeMode) -> (n: usize)
    ensures
        n == vector_bits(mode) / 32,
{
    match mode {
        ComputeMode::Avx512 => 16,
        ComputeMode::Avx2 => 8,
        ComputeMode::Sse => 4,
        ComputeMode::Neon => 4,
        ComputeMode::Scalar => 1,
    }
}

} // verus!
