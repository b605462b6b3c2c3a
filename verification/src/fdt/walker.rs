//! Walking the structure block of a flattened device tree to find the
//! console UART's base address and the CPUs' timebase frequency.
//!
//! The blob is handed over as bytes; every position is an offset from its
//! first byte. A blob that ends in the middle of a token, a name or a value,
//! that holds an unknown token, or whose nesting does not match (a property or
//! an end of node outside every node) gives `None`.

use vstd::prelude::*;

use super::bytes::{
    align4, be32, bytes_equal, cstr_end, cstr_len, lemma_be32_bounds, lemma_cstr_end, read_be32,
    skip_cstr, spec_align4,
};
use super::names::{
    address_cells, compatible, cpus, dw_apb_uart, ns16550a, reg, size_cells, spec_address_cells,
    spec_compatible, spec_cpus, spec_dw_apb_uart, spec_ns16550a, spec_reg, spec_size_cells,
    spec_timebase_frequency, timebase_frequency,
};

verus! {

/// The tokens of the structure block.
#[derive(Clone, Copy, Debug, PartialEq, Eq, Structural)]
pub enum FdtToken {
    BeginNode,
    EndNode,
    Prop,
    Nop,
    End,
}

impl FdtToken {
    /// The token that a raw big-endian word encodes.
    pub open spec fn spec_from_raw(value: u32) -> Option<FdtToken> {
        if value == 0x1 {
            Some(FdtToken::BeginNode)
        } else if value == 0x2 {
            Some(FdtToken::EndNode)
        } else if value == 0x3 {
            Some(FdtToken::Prop)
        } else if value == 0x4 {
            Some(FdtToken::Nop)
        } else if value == 0x9 {
            Some(FdtToken::End)
        } else {
            None
        }
    }

    /// The word that encodes a token.
    pub open spec fn spec_to_raw(self) -> u32 {
        match self {
            FdtToken::BeginNode => 0x1,
            FdtToken::EndNode => 0x2,
            FdtToken::Prop => 0x3,
            FdtToken::Nop => 0x4,
            FdtToken::End => 0x9,
        }
    }

    /// Decodes a token word; `None` for a word that encodes no token.
    pub fn from_raw(value: u32) -> (r: Option<Self>)
        ensures
            r == Self::spec_from_raw(value),
    {
        match value {
            0x1 => Some(Self::BeginNode),
            0x2 => Some(Self::EndNode),
            0x3 => Some(Self::Prop),
            0x4 => Some(Self::Nop),
            0x9 => Some(Self::End),
            _ => None,
        }
    }
}

/// Decoding gives back every token from its word, and a word decodes to a
/// token only if it is that token's word.
pub proof fn lemma_token_round_trip(t: FdtToken, value: u32)
    ensures
        FdtToken::spec_from_raw(t.spec_to_raw()) == Some(t),
        FdtToken::spec_from_raw(value) matches Some(u) ==> u.spec_to_raw() == value,
{
}

/// The token words of the structure block: begin-node is 1, end-node 2,
/// property 3, nop 4 and end 9; every other word is no token.
pub proof fn lemma_token_words(value: u32)
    ensures
        FdtToken::spec_from_raw(value) == Some(FdtToken::BeginNode) <==> value == 1,
        FdtToken::spec_from_raw(value) == Some(FdtToken::EndNode) <==> value == 2,
        FdtToken::spec_from_raw(value) == Some(FdtToken::Prop) <==> value == 3,
        FdtToken::spec_from_raw(value) == Some(FdtToken::Nop) <==> value == 4,
        FdtToken::spec_from_raw(value) == Some(FdtToken::End) <==> value == 9,
        FdtToken::spec_from_raw(value) is None <==> !(value == 1 || value == 2 || value == 3
            || value == 4 || value == 9),
{
}

/// Whether a `compatible` entry names one of the supported UARTs.
pub open spec fn is_uart_compatible(name: Seq<u8>) -> bool {
    name == spec_ns16550a() || name == spec_dw_apb_uart()
}

/// The end of the entry of a NUL-separated list that starts at `i`: the
/// position of the next NUL byte, or the end of the list.
pub open spec fn entry_end(v: Seq<u8>, i: int) -> int
    decreases v.len() - i,
{
    if i < 0 || i >= v.len() {
        v.len() as int
    } else if v[i] == 0 {
        i
    } else {
        entry_end(v, i + 1)
    }
}

/// Bounds of `entry_end`, and that no NUL byte stands before it.
pub proof fn lemma_entry_end(v: Seq<u8>, i: int)
    requires
        0 <= i <= v.len(),
    ensures
        i <= entry_end(v, i) <= v.len(),
        entry_end(v, i) < v.len() ==> v[entry_end(v, i)] == 0,
        forall|k: int| i <= k < entry_end(v, i) ==> v[k] != 0,
    decreases v.len() - i,
{
    if i < v.len() && v[i] != 0 {
        lemma_entry_end(v, i + 1);
    }
}

/// Whether some entry of the NUL-separated list `v`, from the entry that
/// starts at `i` on, names a supported UART.
pub open spec fn compatible_scan(v: Seq<u8>, i: int) -> bool
    decreases v.len() - i,
{
    if i < 0 || i >= v.len() {
        false
    } else {
        let e = entry_end(v, i);
        proof {
            lemma_entry_end(v, i);
        }
        is_uart_compatible(v.subrange(i, e)) || (e < v.len() && compatible_scan(v, e + 1))
    }
}

/// Whether `v[i..j]` is an entry of the NUL-separated list `v`: it starts at
/// the start of the list or just after a NUL byte, ends at the end of the list
/// or at a NUL byte, and holds no NUL byte.
pub open spec fn is_entry(v: Seq<u8>, i: int, j: int) -> bool {
    &&& 0 <= i <= j <= v.len()
    &&& (i == 0 || v[i - 1] == 0)
    &&& (j == v.len() || v[j] == 0)
    &&& forall|k: int| i <= k < j ==> v[k] != 0
}

/// The scan from the entry that starts at `i` finds a UART exactly where some
/// entry at or after `i` names a supported UART.
proof fn lemma_compatible_scan_from(v: Seq<u8>, i: int)
    requires
        0 <= i <= v.len(),
        i == 0 || v[i - 1] == 0,
    ensures
        compatible_scan(v, i) <==> exists|a: int, c: int|
            i <= a && is_entry(v, a, c) && is_uart_compatible(#[trigger] v.subrange(a, c)),
    decreases v.len() - i,
{
    if i < v.len() {
        let e = entry_end(v, i);
        lemma_entry_end(v, i);
        assert(is_entry(v, i, e));
        if e < v.len() {
            lemma_compatible_scan_from(v, e + 1);
        }
        if exists|a: int, c: int|
            i <= a && is_entry(v, a, c) && is_uart_compatible(#[trigger] v.subrange(a, c)) {
            let (a, c) = choose|a: int, c: int|
                i <= a && is_entry(v, a, c) && is_uart_compatible(#[trigger] v.subrange(a, c));
            if a == i {
                // An entry is fixed by where it starts.
                if c < e {
                    assert(v[c] != 0);
                } else if c > e {
                    assert(v[e] == 0);
                }
                assert(c == e);
            } else {
                // A later entry starts after the NUL byte that ends this one.
                assert(v[a - 1] == 0);
                if a - 1 < e {
                    assert(v[a - 1] != 0);
                }
                assert(e < v.len());
                assert(e + 1 <= a);
            }
        }
    } else {
        if exists|a: int, c: int|
            i <= a && is_entry(v, a, c) && is_uart_compatible(#[trigger] v.subrange(a, c)) {
            let (a, c) = choose|a: int, c: int|
                i <= a && is_entry(v, a, c) && is_uart_compatible(#[trigger] v.subrange(a, c));
            assert(v.subrange(a, c).len() == 0);
        }
    }
}

/// A `compatible` value lists a supported UART exactly where one of its
/// NUL-separated entries is `ns16550a` or `snps,dw-apb-uart`.
pub proof fn lemma_compatible_scan_entries(v: Seq<u8>)
    ensures
        compatible_scan(v, 0) <==> exists|a: int, c: int|
            is_entry(v, a, c) && is_uart_compatible(#[trigger] v.subrange(a, c)),
{
    lemma_compatible_scan_from(v, 0);
}

/// Whether the `compatible` value in `data[value..value + len]` lists a
/// supported UART.
pub fn compatible_contains_uart(data: &[u8], value: usize, len: usize) -> (r: bool)
    requires
        value + len <= data@.len(),
    ensures
        r == compatible_scan(data@.subrange(value as int, value + len), 0),
{
    let ghost v = data@.subrange(value as int, value + len);
    let ns = ns16550a();
    let dw = dw_apb_uart();
    let dlen = data.len();
    let mut offset: usize = 0;
    while offset < len
        invariant
            dlen == data@.len(),
            value + len <= data@.len(),
            v == data@.subrange(value as int, value + len),
            ns@ == spec_ns16550a(),
            dw@ == spec_dw_apb_uart(),
            offset <= len,
            compatible_scan(v, 0) == compatible_scan(v, offset as int),
        decreases len - offset,
    {
        let start = offset;
        while offset < len && data[value + offset] != 0
            invariant
                dlen == data@.len(),
                value + len <= data@.len(),
                v == data@.subrange(value as int, value + len),
                start <= offset <= len,
                start < len,
                entry_end(v, start as int) == entry_end(v, offset as int),
            decreases len - offset,
        {
            offset = offset + 1;
        }
        proof {
            lemma_entry_end(v, start as int);
            assert(data@.subrange(value + start, value + offset) =~= v.subrange(
                start as int,
                offset as int,
            ));
        }
        if bytes_equal(data, value + start, value + offset, ns.as_slice()) || bytes_equal(
            data,
            value + start,
            value + offset,
            dw.as_slice(),
        ) {
            return true;
        }
        if offset == len {
            return false;
        }
        offset = offset + 1;
    }
    false
}

/// What the walker knows of an open node: the cell sizes its `reg` is read
/// with, whether its `compatible` names a supported UART, and where its `reg`
/// value lies in the blob.
#[derive(Clone, Copy, Debug, PartialEq, Eq, Structural)]
pub struct NodeState {
    pub address_cells: usize,
    pub size_cells: usize,
    pub is_uart: bool,
    pub reg_offset: usize,
    pub reg_len: usize,
    pub has_reg: bool,
}

impl NodeState {
    /// The state of a node outside every node: two address cells, one size
    /// cell, no UART, no `reg`.
    pub open spec fn spec_default() -> NodeState {
        NodeState {
            address_cells: 2,
            size_cells: 1,
            is_uart: false,
            reg_offset: 0,
            reg_len: 0,
            has_reg: false,
        }
    }

    /// The state a node opens with: its parent's cell sizes, nothing else.
    pub open spec fn child_of(parent: NodeState) -> NodeState {
        NodeState {
            address_cells: parent.address_cells,
            size_cells: parent.size_cells,
            is_uart: false,
            reg_offset: 0,
            reg_len: 0,
            has_reg: false,
        }
    }
}

impl Default for NodeState {
    fn default() -> (r: Self)
        ensures
            r == NodeState::spec_default(),
    {
        NodeState {
            address_cells: 2,
            size_cells: 1,
            is_uart: false,
            reg_offset: 0,
            reg_len: 0,
            has_reg: false,
        }
    }
}

/// How deep the UART walker follows nested nodes.
pub const MAX_NODE_DEPTH: usize = 16;

/// The address in the first entry of a `reg` value at `b[value..value + len]`,
/// read with `address_cells` cells of address and `size_cells` cells of size.
/// `None` where the cell sizes are not one or two address cells and at least
/// one size cell, where the value is shorter than one entry, or where the
/// address does not fit in `usize`.
pub open spec fn spec_decode_reg_address(
    b: Seq<u8>,
    value: int,
    len: int,
    address_cells: int,
    size_cells: int,
) -> Option<usize> {
    if address_cells == 0 || address_cells > 2 || size_cells == 0 {
        None
    } else if address_cells + size_cells > usize::MAX {
        None
    } else if (address_cells + size_cells) * 4 > usize::MAX {
        None
    } else if len < (address_cells + size_cells) * 4 {
        None
    } else {
        let address = if address_cells == 1 {
            be32(b, value)
        } else {
            be32(b, value) * 0x1_0000_0000 + be32(b, value + 4)
        };
        if address > usize::MAX {
            None
        } else {
            Some(address as usize)
        }
    }
}

/// Decodes the first address of the `reg` value at `data[value..value + len]`.
pub fn decode_reg_address(
    data: &[u8],
    value: usize,
    len: usize,
    address_cells: usize,
    size_cells: usize,
) -> (r: Option<usize>)
    requires
        value + len <= data@.len(),
    ensures
        r == spec_decode_reg_address(
            data@,
            value as int,
            len as int,
            address_cells as int,
            size_cells as int,
        ),
{
    let dlen = data.len();
    if address_cells == 0 || address_cells > 2 || size_cells == 0 {
        return None;
    }
    let entry_cells = match address_cells.checked_add(size_cells) {
        Some(c) => c,
        None => return None,
    };
    let entry_len = match entry_cells.checked_mul(4) {
        Some(l) => l,
        None => return None,
    };
    if len < entry_len {
        return None;
    }
    let address: u64 = if address_cells == 1 {
        read_be32(data, value) as u64
    } else {
        assert(value + 8 <= dlen);
        let high = read_be32(data, value) as u64;
        let low = read_be32(data, value + 4) as u64;
        assert((high << 32u64) | low == high * 0x1_0000_0000 + low) by (bit_vector)
            requires
                high < 0x1_0000_0000,
                low < 0x1_0000_0000,
        ;
        (high << 32u64) | low
    };
    if address <= usize::MAX as u64 {
        Some(address as usize)
    } else {
        None
    }
}

/// What a property named `name` with its value at `b[value..value + len]`
/// does to the state of the node it stands in; `None` where a cell-count
/// property's word runs past the end of the blob.
pub open spec fn apply_prop(
    b: Seq<u8>,
    node: NodeState,
    name: Seq<u8>,
    value: int,
    len: int,
) -> Option<NodeState> {
    if name == spec_compatible() {
        Some(
            NodeState {
                is_uart: node.is_uart || compatible_scan(b.subrange(value, value + len), 0),
                ..node
            },
        )
    } else if name == spec_reg() {
        Some(NodeState { reg_offset: value as usize, reg_len: len as usize, has_reg: true, ..node })
    } else if name == spec_address_cells() {
        if value + 4 > b.len() {
            None
        } else {
            Some(NodeState { address_cells: be32(b, value) as usize, ..node })
        }
    } else if name == spec_size_cells() {
        if value + 4 > b.len() {
            None
        } else {
            Some(NodeState { size_cells: be32(b, value) as usize, ..node })
        }
    } else {
        Some(node)
    }
}


/// Each header field is the big-endian word at its own offset: the magic at
/// 0, the total size at 4, the structure block offset at 8, the strings block
/// offset at 12, the memory reservation block offset at 16, the version at
/// 20, the last compatible version at 24, the boot CPU at 28, the strings
/// block size at 32 and the structure block size at 36.
pub proof fn lemma_header_fields_at_offsets(b: Seq<u8>)
    requires
        b.len() >= FDT_HEADER_SIZE,
    ensures
        FdtHeader::spec_parse(b).magic == be32(b, 0),
        FdtHeader::spec_parse(b).total_size == be32(b, 4),
        FdtHeader::spec_parse(b).off_dt_struct == be32(b, 8),
        FdtHeader::spec_parse(b).off_dt_string == be32(b, 12),
        FdtHeader::spec_parse(b).off_memrsvmap == be32(b, 16),
        FdtHeader::spec_parse(b).version == be32(b, 20),
        FdtHeader::spec_parse(b).last_comp_version == be32(b, 24),
        FdtHeader::spec_parse(b).boot_cpuid_phys == be32(b, 28),
        FdtHeader::spec_parse(b).size_dt_strings == be32(b, 32),
        FdtHeader::spec_parse(b).size_dt_struct == be32(b, 36),
{
    lemma_be32_bounds(b, 0);
    lemma_be32_bounds(b, 4);
    lemma_be32_bounds(b, 8);
    lemma_be32_bounds(b, 12);
    lemma_be32_bounds(b, 16);
    lemma_be32_bounds(b, 20);
    lemma_be32_bounds(b, 24);
    lemma_be32_bounds(b, 28);
    lemma_be32_bounds(b, 32);
    lemma_be32_bounds(b, 36);
}

/// The supported UARTs are exactly those whose `compatible` entry is the
/// bytes of `ns16550a` or of `snps,dw-apb-uart`.
pub proof fn lemma_uart_compatible_names(name: Seq<u8>)
    ensures
        is_uart_compatible(name) <==> (name == seq![
            0x6eu8,
            0x73u8,
            0x31u8,
            0x36u8,
            0x35u8,
            0x35u8,
            0x30u8,
            0x61u8,
        ] || name == seq![
            0x73u8,
            0x6eu8,
            0x70u8,
            0x73u8,
            0x2cu8,
            0x64u8,
            0x77u8,
            0x2du8,
            0x61u8,
            0x70u8,
            0x62u8,
            0x2du8,
            0x75u8,
            0x61u8,
            0x72u8,
            0x74u8,
        ]),
{
}

/// A begin-node token that opens a node pushes one state on the open nodes,
/// keeping the others: a node that holds no UART and no `reg` yet, with the
/// `#address-cells` and `#size-cells` of its innermost enclosing node (the
/// last open one), or two and one at the top level.
pub proof fn lemma_child_takes_parent_cells(
    b: Seq<u8>,
    strings: int,
    pos: int,
    stack: Seq<NodeState>,
)
    requires
        FdtToken::spec_from_raw(be32(b, pos) as u32) == Some(FdtToken::BeginNode),
    ensures
        uart_step_spec(b, strings, pos, stack) matches SpecStep::Next(_, st2) ==> {
            &&& st2.len() == stack.len() + 1
            &&& forall|i: int| 0 <= i < stack.len() ==> st2[i] == stack[i]
            &&& st2[stack.len() as int].address_cells == (if stack.len() > 0 {
                stack[stack.len() - 1].address_cells
            } else {
                2
            })
            &&& st2[stack.len() as int].size_cells == (if stack.len() > 0 {
                stack[stack.len() - 1].size_cells
            } else {
                1
            })
            &&& !st2[stack.len() as int].is_uart
            &&& !st2[stack.len() as int].has_reg
        },
{
}


/// The address decoded from a `reg` value: present exactly where there are
/// one or two address cells, at least one size cell, and a whole entry of
/// address and size cells in the value, and the address fits in `usize`. With
/// one address cell it is the value's first big-endian word; with two, the
/// first word is the high half and the second the low half.
pub proof fn lemma_reg_address_layout(b: Seq<u8>, value: int, len: int, ac: usize, sc: usize)
    ensures
        spec_decode_reg_address(b, value, len, ac as int, sc as int) is Some ==> (1 <= ac <= 2
            && sc >= 1 && len >= 4 * (ac + sc)),
        (1 <= ac <= 2 && sc >= 1 && len >= 4 * (ac + sc) && ac + sc <= usize::MAX && 4 * (ac + sc)
            <= usize::MAX) ==> {
            &&& ac == 1 ==> spec_decode_reg_address(b, value, len, ac as int, sc as int) == (if be32(
                b,
                value,
            ) <= usize::MAX {
                Some(be32(b, value) as usize)
            } else {
                None
            })
            &&& ac == 2 ==> spec_decode_reg_address(b, value, len, ac as int, sc as int) == (if be32(
                b,
                value,
            ) * 0x1_0000_0000 + be32(b, value + 4) <= usize::MAX {
                Some((be32(b, value) * 0x1_0000_0000 + be32(b, value + 4)) as usize)
            } else {
                None
            })
        },
{
}

/// What each property does to the node it stands in: a `compatible` value
/// that lists a supported UART marks the node as a UART (and no value clears
/// the mark); a `reg` records where its value lies; `#address-cells` and
/// `#size-cells` set the node's cell sizes to their first word; any other
/// property changes nothing.
pub proof fn lemma_prop_effects(b: Seq<u8>, node: NodeState, name: Seq<u8>, value: int, len: int)
    ensures
        name == seq![0x63u8, 0x6fu8, 0x6du8, 0x70u8, 0x61u8, 0x74u8, 0x69u8, 0x62u8, 0x6cu8, 0x65u8]
            ==> apply_prop(b, node, name, value, len) == Some(
            NodeState {
                is_uart: node.is_uart || compatible_scan(b.subrange(value, value + len), 0),
                ..node
            },
        ),
        name == seq![0x72u8, 0x65u8, 0x67u8] ==> apply_prop(b, node, name, value, len) == Some(
            NodeState { reg_offset: value as usize, reg_len: len as usize, has_reg: true, ..node },
        ),
        (name == seq![
            0x23u8,
            0x61u8,
            0x64u8,
            0x64u8,
            0x72u8,
            0x65u8,
            0x73u8,
            0x73u8,
            0x2du8,
            0x63u8,
            0x65u8,
            0x6cu8,
            0x6cu8,
            0x73u8,
        ] && value + 4 <= b.len()) ==> apply_prop(b, node, name, value, len) == Some(
            NodeState { address_cells: be32(b, value) as usize, ..node },
        ),
        (name == seq![
            0x23u8,
            0x73u8,
            0x69u8,
            0x7au8,
            0x65u8,
            0x2du8,
            0x63u8,
            0x65u8,
            0x6cu8,
            0x6cu8,
            0x73u8,
        ] && value + 4 <= b.len()) ==> apply_prop(b, node, name, value, len) == Some(
            NodeState { size_cells: be32(b, value) as usize, ..node },
        ),
        !(name == spec_compatible() || name == spec_reg() || name == spec_address_cells() || name
            == spec_size_cells()) ==> apply_prop(b, node, name, value, len) == Some(node),
{
    assert(spec_compatible() =~= seq![0x63u8, 0x6fu8, 0x6du8, 0x70u8, 0x61u8, 0x74u8, 0x69u8, 0x62u8, 0x6cu8, 0x65u8]);
    assert(spec_reg() =~= seq![0x72u8, 0x65u8, 0x67u8]);
    assert(spec_compatible() != spec_reg());
    assert(spec_compatible().len() != spec_address_cells().len());
    assert(spec_compatible().len() != spec_size_cells().len());
    assert(spec_reg().len() != spec_address_cells().len());
    assert(spec_reg().len() != spec_size_cells().len());
}

/// At an end-node token, the UART walk stops with the address decoded from
/// the innermost open node's `reg`, read with that node's own cell sizes,
/// where that node is a UART with a `reg`; otherwise it closes that node and
/// goes on at the next word. With no node open it stops with `None`.
pub proof fn lemma_end_node_step(b: Seq<u8>, strings: int, pos: int, stack: Seq<NodeState>)
    requires
        be32(b, pos) == 2,
    ensures
        stack.len() == 0 ==> uart_step_spec(b, strings, pos, stack) == SpecStep::<
            Seq<NodeState>,
            usize,
        >::Stop(None),
        stack.len() > 0 && stack[stack.len() - 1].is_uart && stack[stack.len() - 1].has_reg
            ==> uart_step_spec(b, strings, pos, stack) == SpecStep::<Seq<NodeState>, usize>::Stop(
            spec_decode_reg_address(
                b,
                stack[stack.len() - 1].reg_offset as int,
                stack[stack.len() - 1].reg_len as int,
                stack[stack.len() - 1].address_cells as int,
                stack[stack.len() - 1].size_cells as int,
            ),
        ),
        stack.len() > 0 && !(stack[stack.len() - 1].is_uart && stack[stack.len() - 1].has_reg)
            ==> uart_step_spec(b, strings, pos, stack) == SpecStep::<Seq<NodeState>, usize>::Next(
            pos + 4,
            stack.subrange(0, stack.len() - 1),
        ),
{
    if stack.len() > 0 {
        assert(stack.drop_last() =~= stack.subrange(0, stack.len() - 1));
    }
}

/// At a begin-node token with sixteen nodes already open, the UART walk stops
/// with `None`.
pub proof fn lemma_depth_limit(b: Seq<u8>, strings: int, pos: int, stack: Seq<NodeState>)
    requires
        be32(b, pos) == 1,
        stack.len() >= 16,
    ensures
        uart_step_spec(b, strings, pos, stack) == SpecStep::<Seq<NodeState>, usize>::Stop(None),
{
}

/// One step of a walk: go on at the token at a position, in a new state, or
/// stop with a result.
pub enum SpecStep<S, T> {
    Next(int, S),
    Stop(Option<T>),
}

/// The step of the UART walk for the token at `pos` (which lies inside `b`),
/// with the nodes in `stack` open (innermost last) and the strings block at
/// `strings`.
///
/// A begin-node token opens a node that takes its parent's cell sizes (or the
/// defaults at the top level), unless `MAX_NODE_DEPTH` nodes are already open.
/// Properties update the innermost open node. At the end of a node that is a
/// supported UART and has a `reg`, the walk stops with the decoded address of
/// that `reg`; otherwise the node is closed. The end token stops the walk with
/// `None`.
pub open spec fn uart_step_spec(b: Seq<u8>, strings: int, pos: int, stack: Seq<NodeState>) -> SpecStep<
    Seq<NodeState>,
    usize,
> {
    match FdtToken::spec_from_raw(be32(b, pos) as u32) {
        None => SpecStep::Stop(None),
        Some(FdtToken::BeginNode) => {
            if stack.len() >= MAX_NODE_DEPTH {
                SpecStep::Stop(None)
            } else {
                match cstr_end(b, pos + 4) {
                    None => SpecStep::Stop(None),
                    Some(e) => {
                        let parent = if stack.len() != 0 {
                            stack.last()
                        } else {
                            NodeState::spec_default()
                        };
                        SpecStep::Next(spec_align4(e + 1), stack.push(NodeState::child_of(parent)))
                    },
                }
            }
        },
        Some(FdtToken::EndNode) => {
            if stack.len() == 0 {
                SpecStep::Stop(None)
            } else if stack.last().is_uart && stack.last().has_reg {
                SpecStep::Stop(
                    spec_decode_reg_address(
                        b,
                        stack.last().reg_offset as int,
                        stack.last().reg_len as int,
                        stack.last().address_cells as int,
                        stack.last().size_cells as int,
                    ),
                )
            } else {
                SpecStep::Next(pos + 4, stack.drop_last())
            }
        },
        Some(FdtToken::Prop) => {
            if pos + 12 > b.len() || stack.len() == 0 {
                SpecStep::Stop(None)
            } else {
                let len = be32(b, pos + 4);
                let name_start = strings + be32(b, pos + 8);
                let value = pos + 12;
                match cstr_end(b, name_start) {
                    None => SpecStep::Stop(None),
                    Some(name_end) => {
                        if value + len > b.len() {
                            SpecStep::Stop(None)
                        } else {
                            match apply_prop(
                                b,
                                stack.last(),
                                b.subrange(name_start, name_end),
                                value,
                                len,
                            ) {
                                None => SpecStep::Stop(None),
                                Some(node) => SpecStep::Next(
                                    spec_align4(value + len),
                                    stack.update(stack.len() - 1, node),
                                ),
                            }
                        }
                    },
                }
            }
        },
        Some(FdtToken::Nop) => SpecStep::Next(pos + 4, stack),
        Some(FdtToken::End) => SpecStep::Stop(None),
    }
}

/// Every step that goes on moves forward by at least one word, and lands no further than three
/// bytes past the end of the blob.
pub proof fn lemma_uart_step_advances(b: Seq<u8>, strings: int, pos: int, stack: Seq<NodeState>)
    requires
        0 <= pos,
        pos + 4 <= b.len(),
    ensures
        uart_step_spec(b, strings, pos, stack) matches SpecStep::Next(p2, _) ==> pos + 4 <= p2
            <= b.len() + 3,
{
    lemma_cstr_end(b, pos + 4);
}

/// The UART walk from the token at `pos`, with the nodes in `stack` open and
/// the strings block at `strings`: its steps, one after the other, until one
/// stops or a token would run past the end of the blob.
pub open spec fn uart_walk(b: Seq<u8>, strings: int, pos: int, stack: Seq<NodeState>) -> Option<
    usize,
>
    decreases b.len() + 4 - pos,
{
    if pos < 0 || pos + 4 > b.len() {
        None
    } else {
        proof {
            lemma_uart_step_advances(b, strings, pos, stack);
        }
        match uart_step_spec(b, strings, pos, stack) {
            SpecStep::Stop(r) => r,
            SpecStep::Next(p2, st2) => uart_walk(b, strings, p2, st2),
        }
    }
}

/// The size of the blob header.
pub const FDT_HEADER_SIZE: usize = 40;

/// The header at the start of a blob, each field a big-endian word.
#[derive(Clone, Copy, Debug, PartialEq, Eq, Structural)]
pub struct FdtHeader {
    pub magic: u32,
    pub total_size: u32,
    pub off_dt_struct: u32,
    pub off_dt_string: u32,
    pub off_memrsvmap: u32,
    pub version: u32,
    pub last_comp_version: u32,
    pub boot_cpuid_phys: u32,
    pub size_dt_strings: u32,
    pub size_dt_struct: u32,
}

impl FdtHeader {
    /// The header that the first `FDT_HEADER_SIZE` bytes of `b` encode.
    pub open spec fn spec_parse(b: Seq<u8>) -> FdtHeader {
        FdtHeader {
            magic: be32(b, 0) as u32,
            total_size: be32(b, 4) as u32,
            off_dt_struct: be32(b, 8) as u32,
            off_dt_string: be32(b, 12) as u32,
            off_memrsvmap: be32(b, 16) as u32,
            version: be32(b, 20) as u32,
            last_comp_version: be32(b, 24) as u32,
            boot_cpuid_phys: be32(b, 28) as u32,
            size_dt_strings: be32(b, 32) as u32,
            size_dt_struct: be32(b, 36) as u32,
        }
    }

    /// Reads the header at the start of `blob`.
    pub fn new(blob: &[u8]) -> (r: Self)
        requires
            blob@.len() >= FDT_HEADER_SIZE,
        ensures
            r == Self::spec_parse(blob@),
            r.magic == be32(blob@, 0),
            r.total_size == be32(blob@, 4),
            r.off_dt_struct == be32(blob@, 8),
            r.off_dt_string == be32(blob@, 12),
            r.off_memrsvmap == be32(blob@, 16),
            r.version == be32(blob@, 20),
            r.last_comp_version == be32(blob@, 24),
            r.boot_cpuid_phys == be32(blob@, 28),
            r.size_dt_strings == be32(blob@, 32),
            r.size_dt_struct == be32(blob@, 36),
    {
        FdtHeader {
            magic: read_be32(blob, 0),
            total_size: read_be32(blob, 4),
            off_dt_struct: read_be32(blob, 8),
            off_dt_string: read_be32(blob, 12),
            off_memrsvmap: read_be32(blob, 16),
            version: read_be32(blob, 20),
            last_comp_version: read_be32(blob, 24),
            boot_cpuid_phys: read_be32(blob, 28),
            size_dt_strings: read_be32(blob, 32),
            size_dt_struct: read_be32(blob, 36),
        }
    }
}

/// The base address of the console UART that the blob `b` describes: the
/// UART walk from the start of the structure block with no node open.
pub open spec fn spec_find_uart_base(b: Seq<u8>) -> Option<usize> {
    if b.len() < FDT_HEADER_SIZE {
        None
    } else {
        let h = FdtHeader::spec_parse(b);
        uart_walk(b, h.off_dt_string as int, h.off_dt_struct as int, Seq::empty())
    }
}

/// The open nodes a UART walk can hold: at most `MAX_NODE_DEPTH` of them, and
/// every `reg` they recorded lies inside a blob of `len` bytes.
pub open spec fn stack_ok(stack: Seq<NodeState>, len: int) -> bool {
    &&& stack.len() <= MAX_NODE_DEPTH
    &&& forall|i: int|
        0 <= i < stack.len() && (#[trigger] stack[i]).has_reg ==> stack[i].reg_offset
            + stack[i].reg_len <= len
}

/// One step of a walk: go on at the token at a position, or stop with a result.
pub enum WalkStep<T> {
    Next(usize),
    Stop(Option<T>),
}

/// One step of the UART walk, for the token at `p`.
fn uart_step(blob: &[u8], strings: usize, p: usize, stack: &mut Vec<NodeState>) -> (r: WalkStep<
    usize,
>)
    requires
        p + 4 <= blob@.len(),
        stack_ok(old(stack)@, blob@.len() as int),
    ensures
        match r {
            WalkStep::Next(np) => {
                &&& p < np
                &&& np + 4 <= blob@.len()
                &&& stack_ok(final(stack)@, blob@.len() as int)
                &&& uart_walk(blob@, strings as int, np as int, final(stack)@) == uart_walk(
                    blob@,
                    strings as int,
                    p as int,
                    old(stack)@,
                )
            },
            WalkStep::Stop(res) => res == uart_walk(blob@, strings as int, p as int, old(stack)@),
        },
{
    let raw = read_be32(blob, p);
    match FdtToken::from_raw(raw) {
        None => WalkStep::Stop(None),
        Some(FdtToken::BeginNode) => uart_begin_node(blob, strings, p, stack),
        Some(FdtToken::EndNode) => uart_end_node(blob, strings, p, stack),
        Some(FdtToken::Prop) => uart_prop(blob, strings, p, stack),
        Some(FdtToken::Nop) => {
            if blob.len() - p < 8 {
                proof {
                    assert(uart_walk(blob@, strings as int, p + 4, stack@) is None);
                }
                return WalkStep::Stop(None);
            }
            WalkStep::Next(p + 4)
        },
        Some(FdtToken::End) => WalkStep::Stop(None),
    }
}

/// The UART walk's step for a begin-node token at `p`.
fn uart_begin_node(blob: &[u8], strings: usize, p: usize, stack: &mut Vec<NodeState>) -> (r:
    WalkStep<usize>)
    requires
        p + 4 <= blob@.len(),
        FdtToken::spec_from_raw(be32(blob@, p as int) as u32) == Some(FdtToken::BeginNode),
        stack_ok(old(stack)@, blob@.len() as int),
    ensures
        match r {
            WalkStep::Next(np) => {
                &&& p < np
                &&& np + 4 <= blob@.len()
                &&& stack_ok(final(stack)@, blob@.len() as int)
                &&& uart_walk(blob@, strings as int, np as int, final(stack)@) == uart_walk(
                    blob@,
                    strings as int,
                    p as int,
                    old(stack)@,
                )
            },
            WalkStep::Stop(res) => res == uart_walk(blob@, strings as int, p as int, old(stack)@),
        },
{
    let ghost b = blob@;
    let ghost old_stack = stack@;
    let dlen = blob.len();
    if stack.len() >= MAX_NODE_DEPTH {
        return WalkStep::Stop(None);
    }
    let parent = if stack.len() != 0 {
        stack[stack.len() - 1]
    } else {
        NodeState::default()
    };
    let next = match skip_cstr(blob, p + 4) {
        None => {
            return WalkStep::Stop(None);
        },
        Some(q) => q,
    };
    proof {
        lemma_cstr_end(b, p + 4);
    }
    let ghost child = NodeState::child_of(
        if old_stack.len() != 0 {
            old_stack.last()
        } else {
            NodeState::spec_default()
        },
    );
    if next > dlen - 4 {
        proof {
            assert(uart_walk(b, strings as int, spec_align4(next as int), old_stack.push(child))
                is None);
        }
        return WalkStep::Stop(None);
    }
    let np = align4(next);
    if np > dlen - 4 {
        proof {
            assert(uart_walk(b, strings as int, np as int, old_stack.push(child)) is None);
        }
        return WalkStep::Stop(None);
    }
    stack.push(
        NodeState {
            address_cells: parent.address_cells,
            size_cells: parent.size_cells,
            is_uart: false,
            reg_offset: 0,
            reg_len: 0,
            has_reg: false,
        },
    );
    proof {
        assert(stack@ =~= old_stack.push(child));
    }
    WalkStep::Next(np)
}

/// The UART walk's step for an end-node token at `p`.
fn uart_end_node(blob: &[u8], strings: usize, p: usize, stack: &mut Vec<NodeState>) -> (r:
    WalkStep<usize>)
    requires
        p + 4 <= blob@.len(),
        FdtToken::spec_from_raw(be32(blob@, p as int) as u32) == Some(FdtToken::EndNode),
        stack_ok(old(stack)@, blob@.len() as int),
    ensures
        match r {
            WalkStep::Next(np) => {
                &&& p < np
                &&& np + 4 <= blob@.len()
                &&& stack_ok(final(stack)@, blob@.len() as int)
                &&& uart_walk(blob@, strings as int, np as int, final(stack)@) == uart_walk(
                    blob@,
                    strings as int,
                    p as int,
                    old(stack)@,
                )
            },
            WalkStep::Stop(res) => res == uart_walk(blob@, strings as int, p as int, old(stack)@),
        },
{
    let ghost old_stack = stack@;
    if stack.len() == 0 {
        return WalkStep::Stop(None);
    }
    let node = stack[stack.len() - 1];
    if node.is_uart && node.has_reg {
        proof {
            assert(old_stack[old_stack.len() - 1] == node);
        }
        return WalkStep::Stop(
            decode_reg_address(
                blob,
                node.reg_offset,
                node.reg_len,
                node.address_cells,
                node.size_cells,
            ),
        );
    }
    stack.pop();
    proof {
        assert(stack@ =~= old_stack.drop_last());
    }
    if blob.len() - p < 8 {
        proof {
            assert(uart_walk(blob@, strings as int, p + 4, old_stack.drop_last()) is None);
        }
        return WalkStep::Stop(None);
    }
    WalkStep::Next(p + 4)
}

/// The UART walk's step for a property token at `p`.
fn uart_prop(blob: &[u8], strings: usize, p: usize, stack: &mut Vec<NodeState>) -> (r: WalkStep<
    usize,
>)
    requires
        p + 4 <= blob@.len(),
        FdtToken::spec_from_raw(be32(blob@, p as int) as u32) == Some(FdtToken::Prop),
        stack_ok(old(stack)@, blob@.len() as int),
    ensures
        match r {
            WalkStep::Next(np) => {
                &&& p < np
                &&& np + 4 <= blob@.len()
                &&& stack_ok(final(stack)@, blob@.len() as int)
                &&& uart_walk(blob@, strings as int, np as int, final(stack)@) == uart_walk(
                    blob@,
                    strings as int,
                    p as int,
                    old(stack)@,
                )
            },
            WalkStep::Stop(res) => res == uart_walk(blob@, strings as int, p as int, old(stack)@),
        },
{
    let ghost b = blob@;
    let ghost old_stack = stack@;
    let dlen = blob.len();
    if dlen - p < 12 || stack.len() == 0 {
        return WalkStep::Stop(None);
    }
    let len = read_be32(blob, p + 4) as usize;
    let nameoff = read_be32(blob, p + 8) as usize;
    let value = p + 12;
    let name_start = match strings.checked_add(nameoff) {
        None => {
            return WalkStep::Stop(None);
        },
        Some(x) => x,
    };
    let name_len = match cstr_len(blob, name_start) {
        None => {
            return WalkStep::Stop(None);
        },
        Some(n) => n,
    };
    proof {
        lemma_cstr_end(b, name_start as int);
    }
    let name_end = name_start + name_len;
    if len > dlen - value {
        return WalkStep::Stop(None);
    }
    let last = stack.len() - 1;
    let mut node = stack[last];
    let comp = compatible();
    let rg = reg();
    let ac = address_cells();
    let sc = size_cells();
    if bytes_equal(blob, name_start, name_end, comp.as_slice()) {
        let found = compatible_contains_uart(blob, value, len);
        node.is_uart = node.is_uart || found;
    } else if bytes_equal(blob, name_start, name_end, rg.as_slice()) {
        node.reg_offset = value;
        node.reg_len = len;
        node.has_reg = true;
    } else if bytes_equal(blob, name_start, name_end, ac.as_slice()) {
        if value > dlen - 4 {
            return WalkStep::Stop(None);
        }
        node.address_cells = read_be32(blob, value) as usize;
    } else if bytes_equal(blob, name_start, name_end, sc.as_slice()) {
        if value > dlen - 4 {
            return WalkStep::Stop(None);
        }
        node.size_cells = read_be32(blob, value) as usize;
    }
    proof {
        assert(apply_prop(
            b,
            old_stack.last(),
            b.subrange(name_start as int, name_end as int),
            value as int,
            len as int,
        ) == Some(node));
    }
    stack.set(last, node);
    let x = value + len;
    if x > dlen - 4 {
        proof {
            assert(uart_walk(b, strings as int, spec_align4(x as int), stack@) is None);
        }
        return WalkStep::Stop(None);
    }
    let np = align4(x);
    if np > dlen - 4 {
        proof {
            assert(uart_walk(b, strings as int, np as int, stack@) is None);
        }
        return WalkStep::Stop(None);
    }
    WalkStep::Next(np)
}

/// Finds the base address of the first node that is closed while it holds
/// both a `compatible` naming a supported UART (`ns16550a` or
/// `snps,dw-apb-uart`) and a `reg`.
pub fn find_uart_base(blob: &[u8]) -> (r: Option<usize>)
    ensures
        r == spec_find_uart_base(blob@),
{
    let dlen = blob.len();
    if dlen < FDT_HEADER_SIZE {
        return None;
    }
    let header = FdtHeader::new(blob);
    let strings = header.off_dt_string as usize;
    let mut p = header.off_dt_struct as usize;
    if p > dlen - 4 {
        return None;
    }
    let mut stack: Vec<NodeState> = Vec::new();
    loop
        invariant
            dlen == blob@.len(),
            dlen >= FDT_HEADER_SIZE,
            strings as int == FdtHeader::spec_parse(blob@).off_dt_string as int,
            p + 4 <= dlen,
            stack_ok(stack@, dlen as int),
            uart_walk(blob@, strings as int, p as int, stack@) == spec_find_uart_base(blob@),
        decreases dlen - p,
    {
        match uart_step(blob, strings, p, &mut stack) {
            WalkStep::Next(np) => {
                p = np;
            },
            WalkStep::Stop(res) => {
                return res;
            },
        }
    }
}

/// Where the timebase walk stands: how many nodes are open, whether it is
/// inside the `cpus` node, and at which depth that node was opened.
#[derive(Clone, Copy, Debug, PartialEq, Eq, Structural)]
pub struct CpuScan {
    pub depth: usize,
    pub is_cpu: bool,
    pub cpu_depth: usize,
}

/// The step of the timebase walk for the token at `pos` (which lies inside
/// `b`), in the state `scan`.
///
/// Each begin-node token opens a level; a node named `cpus` marks the walk as
/// inside it until the end token of that level. The first
/// `timebase-frequency` property met inside it stops the walk with its first
/// word. The end token stops the walk with `None`.
pub open spec fn timebase_step_spec(b: Seq<u8>, strings: int, pos: int, scan: CpuScan) -> SpecStep<
    CpuScan,
    u64,
> {
    match FdtToken::spec_from_raw(be32(b, pos) as u32) {
        None => SpecStep::Stop(None),
        Some(FdtToken::BeginNode) => {
            match cstr_end(b, pos + 4) {
                None => SpecStep::Stop(None),
                Some(e) => {
                    let depth = scan.depth + 1;
                    let next = if b.subrange(pos + 4, e) == spec_cpus() {
                        CpuScan { depth: depth as usize, is_cpu: true, cpu_depth: depth as usize }
                    } else {
                        CpuScan { depth: depth as usize, ..scan }
                    };
                    SpecStep::Next(spec_align4(e + 1), next)
                },
            }
        },
        Some(FdtToken::EndNode) => {
            if scan.depth == 0 {
                SpecStep::Stop(None)
            } else {
                SpecStep::Next(
                    pos + 4,
                    CpuScan {
                        depth: (scan.depth - 1) as usize,
                        is_cpu: scan.is_cpu && scan.depth != scan.cpu_depth,
                        cpu_depth: scan.cpu_depth,
                    },
                )
            }
        },
        Some(FdtToken::Prop) => {
            if pos + 12 > b.len() {
                SpecStep::Stop(None)
            } else {
                let len = be32(b, pos + 4);
                let name_start = strings + be32(b, pos + 8);
                let value = pos + 12;
                match cstr_end(b, name_start) {
                    None => SpecStep::Stop(None),
                    Some(name_end) => {
                        if b.subrange(name_start, name_end) == spec_timebase_frequency()
                            && scan.is_cpu {
                            if value + 4 > b.len() {
                                SpecStep::Stop(None)
                            } else {
                                SpecStep::Stop(Some(be32(b, value) as u64))
                            }
                        } else if value + len > b.len() {
                            SpecStep::Stop(None)
                        } else {
                            SpecStep::Next(spec_align4(value + len), scan)
                        }
                    },
                }
            }
        },
        Some(FdtToken::Nop) => SpecStep::Next(pos + 4, scan),
        Some(FdtToken::End) => SpecStep::Stop(None),
    }
}

/// How the timebase walk tracks the `cpus` node: opening a node named `cpus`
/// marks the walk as inside it at the new depth; opening any other node keeps
/// the mark; closing the node opened at the marked depth clears it; a
/// `timebase-frequency` property met inside it stops the walk with its first
/// word.
pub proof fn lemma_timebase_tracks_cpus(b: Seq<u8>, strings: int, pos: int, scan: CpuScan)
    requires
        0 <= pos,
        pos + 4 <= b.len(),
        scan.depth < usize::MAX,
    ensures
        be32(b, pos) == 1 ==> match cstr_end(b, pos + 4) {
            Some(e) => timebase_step_spec(b, strings, pos, scan) == SpecStep::<CpuScan, u64>::Next(
                spec_align4(e + 1),
                if b.subrange(pos + 4, e) == seq![0x63u8, 0x70u8, 0x75u8, 0x73u8] {
                    CpuScan {
                        depth: (scan.depth + 1) as usize,
                        is_cpu: true,
                        cpu_depth: (scan.depth + 1) as usize,
                    }
                } else {
                    CpuScan {
                        depth: (scan.depth + 1) as usize,
                        is_cpu: scan.is_cpu,
                        cpu_depth: scan.cpu_depth,
                    }
                },
            ),
            None => timebase_step_spec(b, strings, pos, scan) == SpecStep::<CpuScan, u64>::Stop(
                None,
            ),
        },
        (be32(b, pos) == 2 && scan.depth > 0) ==> timebase_step_spec(b, strings, pos, scan)
            == SpecStep::<CpuScan, u64>::Next(
            pos + 4,
            CpuScan {
                depth: (scan.depth - 1) as usize,
                is_cpu: scan.is_cpu && scan.depth != scan.cpu_depth,
                cpu_depth: scan.cpu_depth,
            },
        ),
        (be32(b, pos) == 3 && pos + 16 <= b.len() && scan.is_cpu) ==> (cstr_end(
            b,
            strings + be32(b, pos + 8),
        ) matches Some(ne) ==> (b.subrange(strings + be32(b, pos + 8), ne) == seq![
            0x74u8,
            0x69u8,
            0x6du8,
            0x65u8,
            0x62u8,
            0x61u8,
            0x73u8,
            0x65u8,
            0x2du8,
            0x66u8,
            0x72u8,
            0x65u8,
            0x71u8,
            0x75u8,
            0x65u8,
            0x6eu8,
            0x63u8,
            0x79u8,
        ] ==> timebase_step_spec(b, strings, pos, scan) == SpecStep::<CpuScan, u64>::Stop(
            Some(be32(b, pos + 12) as u64),
        ))),
{
    assert(spec_cpus() =~= seq![0x63u8, 0x70u8, 0x75u8, 0x73u8]);
    assert(spec_timebase_frequency() =~= seq![
        0x74u8,
        0x69u8,
        0x6du8,
        0x65u8,
        0x62u8,
        0x61u8,
        0x73u8,
        0x65u8,
        0x2du8,
        0x66u8,
        0x72u8,
        0x65u8,
        0x71u8,
        0x75u8,
        0x65u8,
        0x6eu8,
        0x63u8,
        0x79u8,
    ]);
}

/// Every step of the timebase walk that goes on moves forward by at least one
/// word, and lands no further than three bytes past the end of the blob.
pub proof fn lemma_timebase_step_advances(b: Seq<u8>, strings: int, pos: int, scan: CpuScan)
    requires
        0 <= pos,
        pos + 4 <= b.len(),
    ensures
        timebase_step_spec(b, strings, pos, scan) matches SpecStep::Next(p2, _) ==> pos + 4 <= p2
            <= b.len() + 3,
{
    lemma_cstr_end(b, pos + 4);
}

/// The timebase walk from the token at `pos`, in the state `scan`: its steps,
/// one after the other, until one stops or a token would run past the end of
/// the blob.
pub open spec fn timebase_walk(b: Seq<u8>, strings: int, pos: int, scan: CpuScan) -> Option<u64>
    decreases b.len() + 4 - pos,
{
    if pos < 0 || pos + 4 > b.len() {
        None
    } else {
        proof {
            lemma_timebase_step_advances(b, strings, pos, scan);
        }
        match timebase_step_spec(b, strings, pos, scan) {
            SpecStep::Stop(r) => r,
            SpecStep::Next(p2, next) => timebase_walk(b, strings, p2, next),
        }
    }
}

/// The timebase frequency that the blob `b` gives: the timebase walk from the
/// start of the structure block with no node open.
pub open spec fn spec_find_timebase_frequency(b: Seq<u8>) -> Option<u64> {
    if b.len() < FDT_HEADER_SIZE {
        None
    } else {
        let h = FdtHeader::spec_parse(b);
        timebase_walk(
            b,
            h.off_dt_string as int,
            h.off_dt_struct as int,
            CpuScan { depth: 0, is_cpu: false, cpu_depth: 0 },
        )
    }
}

/// One step of the timebase walk, for the token at `p`.
fn timebase_step(blob: &[u8], strings: usize, p: usize, scan: &mut CpuScan) -> (r: WalkStep<u64>)
    requires
        p + 4 <= blob@.len(),
        old(scan).depth <= p,
    ensures
        match r {
            WalkStep::Next(np) => {
                &&& p < np
                &&& np + 4 <= blob@.len()
                &&& final(scan).depth <= np
                &&& timebase_walk(blob@, strings as int, np as int, *final(scan)) == timebase_walk(
                    blob@,
                    strings as int,
                    p as int,
                    *old(scan),
                )
            },
            WalkStep::Stop(res) => res == timebase_walk(blob@, strings as int, p as int, *old(scan)),
        },
{
    let ghost b = blob@;
    let ghost old_scan = *scan;
    let dlen = blob.len();
    let raw = read_be32(blob, p);
    match FdtToken::from_raw(raw) {
        None => WalkStep::Stop(None),
        Some(FdtToken::BeginNode) => {
            let name_len = match cstr_len(blob, p + 4) {
                None => {
                    return WalkStep::Stop(None);
                },
                Some(n) => n,
            };
            proof {
                lemma_cstr_end(b, p + 4);
            }
            let name_end = p + 4 + name_len;
            let depth = scan.depth + 1;
            let ghost next_scan = if b.subrange(p + 4, name_end as int) == spec_cpus() {
                CpuScan { depth: depth, is_cpu: true, cpu_depth: depth }
            } else {
                CpuScan { depth: depth, ..old_scan }
            };
            if name_end + 1 > dlen - 4 {
                proof {
                    assert(timebase_walk(b, strings as int, spec_align4(name_end + 1), next_scan)
                        is None);
                }
                return WalkStep::Stop(None);
            }
            let np = align4(name_end + 1);
            if np > dlen - 4 {
                proof {
                    assert(timebase_walk(b, strings as int, np as int, next_scan) is None);
                }
                return WalkStep::Stop(None);
            }
            let name = cpus();
            if bytes_equal(blob, p + 4, name_end, name.as_slice()) {
                scan.is_cpu = true;
                scan.cpu_depth = depth;
            }
            scan.depth = depth;
            proof {
                assert(*scan == next_scan);
            }
            WalkStep::Next(np)
        },
        Some(FdtToken::EndNode) => {
            if scan.depth == 0 {
                return WalkStep::Stop(None);
            }
            if scan.is_cpu && scan.depth == scan.cpu_depth {
                scan.is_cpu = false;
            }
            scan.depth = scan.depth - 1;
            if dlen - p < 8 {
                proof {
                    assert(timebase_walk(b, strings as int, p + 4, *scan) is None);
                }
                return WalkStep::Stop(None);
            }
            WalkStep::Next(p + 4)
        },
        Some(FdtToken::Prop) => {
            if dlen - p < 12 {
                return WalkStep::Stop(None);
            }
            let len = read_be32(blob, p + 4) as usize;
            let nameoff = read_be32(blob, p + 8) as usize;
            let value = p + 12;
            let name_start = match strings.checked_add(nameoff) {
                None => {
                    return WalkStep::Stop(None);
                },
                Some(x) => x,
            };
            let name_len = match cstr_len(blob, name_start) {
                None => {
                    return WalkStep::Stop(None);
                },
                Some(n) => n,
            };
            proof {
                lemma_cstr_end(b, name_start as int);
            }
            let name_end = name_start + name_len;
            let name = timebase_frequency();
            if bytes_equal(blob, name_start, name_end, name.as_slice()) && scan.is_cpu {
                if dlen - value < 4 {
                    return WalkStep::Stop(None);
                }
                return WalkStep::Stop(Some(read_be32(blob, value) as u64));
            }
            if len > dlen - value {
                return WalkStep::Stop(None);
            }
            let x = value + len;
            if x > dlen - 4 {
                proof {
                    assert(timebase_walk(b, strings as int, spec_align4(x as int), *scan) is None);
                }
                return WalkStep::Stop(None);
            }
            let np = align4(x);
            if np > dlen - 4 {
                proof {
                    assert(timebase_walk(b, strings as int, np as int, *scan) is None);
                }
                return WalkStep::Stop(None);
            }
            WalkStep::Next(np)
        },
        Some(FdtToken::Nop) => {
            if dlen - p < 8 {
                proof {
                    assert(timebase_walk(b, strings as int, p + 4, *scan) is None);
                }
                return WalkStep::Stop(None);
            }
            WalkStep::Next(p + 4)
        },
        Some(FdtToken::End) => WalkStep::Stop(None),
    }
}

/// Finds the timebase frequency: the first word of the first
/// `timebase-frequency` property inside the `cpus` node.
pub fn find_timebase_frequency(blob: &[u8]) -> (r: Option<u64>)
    ensures
        r == spec_find_timebase_frequency(blob@),
{
    let dlen = blob.len();
    if dlen < FDT_HEADER_SIZE {
        return None;
    }
    let header = FdtHeader::new(blob);
    let strings = header.off_dt_string as usize;
    let mut p = header.off_dt_struct as usize;
    if p > dlen - 4 {
        return None;
    }
    let mut scan = CpuScan { depth: 0, is_cpu: false, cpu_depth: 0 };
    loop
        invariant
            dlen == blob@.len(),
            dlen >= FDT_HEADER_SIZE,
            strings as int == FdtHeader::spec_parse(blob@).off_dt_string as int,
            p + 4 <= dlen,
            scan.depth <= p,
            timebase_walk(blob@, strings as int, p as int, scan) == spec_find_timebase_frequency(
                blob@,
            ),
        decreases dlen - p,
    {
        match timebase_step(blob, strings, p, &mut scan) {
            WalkStep::Next(np) => {
                p = np;
            },
            WalkStep::Stop(res) => {
                return res;
            },
        }
    }
}

} // verus!
