//! The byte strings that the device-tree walkers look for.

use vstd::prelude::*;

verus! {

/// The bytes of `"compatible"`.
pub open spec fn spec_compatible() -> Seq<u8> {
    seq![0x63u8, 0x6fu8, 0x6du8, 0x70u8, 0x61u8, 0x74u8, 0x69u8, 0x62u8, 0x6cu8, 0x65u8]
}

/// The bytes of `"compatible"`, as an array.
pub fn compatible() -> (r: [u8; 10])
    ensures
        r@ == spec_compatible(),
{
    let r: [u8; 10] = [0x63u8, 0x6fu8, 0x6du8, 0x70u8, 0x61u8, 0x74u8, 0x69u8, 0x62u8, 0x6cu8, 0x65u8];
    assert(r@ =~= spec_compatible());
    r
}

/// The bytes of `"reg"`.
pub open spec fn spec_reg() -> Seq<u8> {
    seq![0x72u8, 0x65u8, 0x67u8]
}

/// The bytes of `"reg"`, as an array.
pub fn reg() -> (r: [u8; 3])
    ensures
        r@ == spec_reg(),
{
    let r: [u8; 3] = [0x72u8, 0x65u8, 0x67u8];
    assert(r@ =~= spec_reg());
    r
}

/// The bytes of `"#address-cells"`.
pub open spec fn spec_address_cells() -> Seq<u8> {
    seq![0x23u8, 0x61u8, 0x64u8, 0x64u8, 0x72u8, 0x65u8, 0x73u8, 0x73u8, 0x2du8, 0x63u8, 0x65u8, 0x6cu8, 0x6cu8, 0x73u8]
}

/// The bytes of `"#address-cells"`, as an array.
pub fn address_cells() -> (r: [u8; 14])
    ensures
        r@ == spec_address_cells(),
{
    let r: [u8; 14] = [0x23u8, 0x61u8, 0x64u8, 0x64u8, 0x72u8, 0x65u8, 0x73u8, 0x73u8, 0x2du8, 0x63u8, 0x65u8, 0x6cu8, 0x6cu8, 0x73u8];
    assert(r@ =~= spec_address_cells());
    r
}

/// The bytes of `"#size-cells"`.
pub open spec fn spec_size_cells() -> Seq<u8> {
    seq![0x23u8, 0x73u8, 0x69u8, 0x7au8, 0x65u8, 0x2du8, 0x63u8, 0x65u8, 0x6cu8, 0x6cu8, 0x73u8]
}

/// The bytes of `"#size-cells"`, as an array.
pub fn size_cells() -> (r: [u8; 11])
    ensures
        r@ == spec_size_cells(),
{
    let r: [u8; 11] = [0x23u8, 0x73u8, 0x69u8, 0x7au8, 0x65u8, 0x2du8, 0x63u8, 0x65u8, 0x6cu8, 0x6cu8, 0x73u8];
    assert(r@ =~= spec_size_cells());
    r
}

/// The bytes of `"cpus"`.
pub open spec fn spec_cpus() -> Seq<u8> {
    seq![0x63u8, 0x70u8, 0x75u8, 0x73u8]
}

/// The bytes of `"cpus"`, as an array.
pub fn cpus() -> (r: [u8; 4])
    ensures
        r@ == spec_cpus(),
{
    let r: [u8; 4] = [0x63u8, 0x70u8, 0x75u8, 0x73u8];
    assert(r@ =~= spec_cpus());
    r
}

/// The bytes of `"timebase-frequency"`.
pub open spec fn spec_timebase_frequency() -> Seq<u8> {
    seq![0x74u8, 0x69u8, 0x6du8, 0x65u8, 0x62u8, 0x61u8, 0x73u8, 0x65u8, 0x2du8, 0x66u8, 0x72u8, 0x65u8, 0x71u8, 0x75u8, 0x65u8, 0x6eu8, 0x63u8, 0x79u8]
}

/// The bytes of `"timebase-frequency"`, as an array.
pub fn timebase_frequency() -> (r: [u8; 18])
    ensures
        r@ == spec_timebase_frequency(),
{
    let r: [u8; 18] = [0x74u8, 0x69u8, 0x6du8, 0x65u8, 0x62u8, 0x61u8, 0x73u8, 0x65u8, 0x2du8, 0x66u8, 0x72u8, 0x65u8, 0x71u8, 0x75u8, 0x65u8, 0x6eu8, 0x63u8, 0x79u8];
    assert(r@ =~= spec_timebase_frequency());
    r
}

/// The bytes of `"ns16550a"`.
pub open spec fn spec_ns16550a() -> Seq<u8> {
    seq![0x6eu8, 0x73u8, 0x31u8, 0x36u8, 0x35u8, 0x35u8, 0x30u8, 0x61u8]
}

/// The bytes of `"ns16550a"`, as an array.
pub fn ns16550a() -> (r: [u8; 8])
    ensures
        r@ == spec_ns16550a(),
{
    let r: [u8; 8] = [0x6eu8, 0x73u8, 0x31u8, 0x36u8, 0x35u8, 0x35u8, 0x30u8, 0x61u8];
    assert(r@ =~= spec_ns16550a());
    r
}

/// The bytes of `"snps,dw-apb-uart"`.
pub open spec fn spec_dw_apb_uart() -> Seq<u8> {
    seq![0x73u8, 0x6eu8, 0x70u8, 0x73u8, 0x2cu8, 0x64u8, 0x77u8, 0x2du8, 0x61u8, 0x70u8, 0x62u8, 0x2du8, 0x75u8, 0x61u8, 0x72u8, 0x74u8]
}

/// The bytes of `"snps,dw-apb-uart"`, as an array.
pub fn dw_apb_uart() -> (r: [u8; 16])
    ensures
        r@ == spec_dw_apb_uart(),
{
    let r: [u8; 16] = [0x73u8, 0x6eu8, 0x70u8, 0x73u8, 0x2cu8, 0x64u8, 0x77u8, 0x2du8, 0x61u8, 0x70u8, 0x62u8, 0x2du8, 0x75u8, 0x61u8, 0x72u8, 0x74u8];
    assert(r@ =~= spec_dw_apb_uart());
    r
}

} // verus!
