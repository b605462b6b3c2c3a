//! Nop tokens do not change what the walkers find: inserting one at a token
//! boundary of the structure block, with the strings block kept in place
//! (before the insertion) or moved along (after it), leaves `find_uart_base`
//! and `find_timebase_frequency` as they were.

use vstd::prelude::*;

use super::bytes::{be32, cstr_end, lemma_cstr_end, spec_align4};
use super::names::{spec_address_cells, spec_size_cells, spec_timebase_frequency};
use super::walker::{
    apply_prop, compatible_scan, lemma_timebase_step_advances, lemma_uart_step_advances,
    spec_decode_reg_address, spec_find_timebase_frequency, spec_find_uart_base,
    timebase_step_spec, timebase_walk, uart_step_spec, uart_walk, CpuScan, FdtHeader, FdtToken,
    NodeState, SpecStep, FDT_HEADER_SIZE,
};

verus! {

/// The bytes of `b2` are those of `b` with a nop word inserted at `q`: the
/// bytes past the header and before `q` are kept, the nop word follows, then
/// every byte from `q` on, four places later.
pub open spec fn nop_bytes(b: Seq<u8>, b2: Seq<u8>, q: int) -> bool {
    &&& FDT_HEADER_SIZE <= q <= b.len()
    &&& b2.len() == b.len() + 4
    &&& forall|i: int| FDT_HEADER_SIZE <= i < q ==> b2[i] == #[trigger] b[i]
    &&& b2[q] == 0 && b2[q + 1] == 0 && b2[q + 2] == 0 && b2[q + 3] == 4
    &&& forall|i: int| q <= i < b.len() ==> b2[i + 4] == #[trigger] b[i]
}

/// Where the strings block of `b`, at `strings`, lies in `b2`: four bytes on
/// where it was moved along with the insertion, in place otherwise.
pub open spec fn moved_strings(strings: int, moved: bool) -> int {
    if moved {
        strings + 4
    } else {
        strings
    }
}

/// `b2` is the blob `b` with a nop token inserted at `q` in its structure
/// block: its header gives the same structure block offset, and the strings
/// block offset moved four bytes on where `moved` holds, kept otherwise.
pub open spec fn nop_inserted(b: Seq<u8>, b2: Seq<u8>, q: int, moved: bool) -> bool {
    &&& nop_bytes(b, b2, q)
    &&& FdtHeader::spec_parse(b2).off_dt_struct == FdtHeader::spec_parse(b).off_dt_struct
    &&& FdtHeader::spec_parse(b2).off_dt_string == moved_strings(
        FdtHeader::spec_parse(b).off_dt_string as int,
        moved,
    )
}

/// The name that the property token at `pos` names, by its start in `b`.
pub open spec fn prop_name_start(b: Seq<u8>, strings: int, pos: int) -> int {
    strings + be32(b, pos + 8)
}

/// What a step of a walk at `pos` must read for the insertion at `q` to leave
/// it as it was. A token before `q` ends by `q`, and so do the name of a node
/// opened before `q` and the header and value of a property before `q` (where
/// the property's name is found); the cell word of a `#address-cells` or
/// `#size-cells` property before `q`, read even where its value is shorter, is
/// before `q` too. Where the strings block stays in place, every property
/// name read lies past the header and ends before `q`.
pub open spec fn step_fits(
    b: Seq<u8>,
    strings: int,
    pos: int,
    open_nodes: int,
    q: int,
    moved: bool,
) -> bool {
    let tok = FdtToken::spec_from_raw(be32(b, pos) as u32);
    let ns = prop_name_start(b, strings, pos);
    let len = be32(b, pos + 4);
    let value = pos + 12;
    &&& pos < q ==> pos + 4 <= q
    &&& (pos < q && tok == Some(FdtToken::BeginNode) && open_nodes < 16) ==> (cstr_end(b, pos + 4) matches Some(e) && e < q)
    &&& (pos < q && tok == Some(FdtToken::Prop)) ==> {
        &&& pos + 12 <= q
        &&& cstr_end(b, ns) matches Some(ne) ==> {
            &&& value + len <= q
            &&& (b.subrange(ns, ne) == spec_address_cells() || b.subrange(ns, ne)
                == spec_size_cells()) ==> value + 4 <= q
        }
    }
    &&& (!moved && tok == Some(FdtToken::Prop) && pos + 12 <= b.len()) ==> {
        &&& FDT_HEADER_SIZE <= ns
        &&& cstr_end(b, ns) matches Some(ne) && ne < q
    }
}

/// Whether the insertion at `q` fits the UART walk of `b` from `pos`: every
/// step reads as `step_fits` says, a walk that comes before `q` does not step
/// over it, and a walk that runs out of bytes does so past `q`.
pub open spec fn uart_nop_fits(
    b: Seq<u8>,
    strings: int,
    pos: int,
    stack: Seq<NodeState>,
    q: int,
    moved: bool,
) -> bool
    decreases b.len() + 4 - pos,
{
    if pos < 0 || pos + 4 > b.len() {
        pos >= q
    } else {
        proof {
            lemma_uart_step_advances(b, strings, pos, stack);
        }
        step_fits(b, strings, pos, stack.len() as int, q, moved) && match uart_step_spec(
            b,
            strings,
            pos,
            stack,
        ) {
            SpecStep::Next(p2, st2) => (pos < q ==> p2 <= q) && uart_nop_fits(
                b,
                strings,
                p2,
                st2,
                q,
                moved,
            ),
            SpecStep::Stop(_) => true,
        }
    }
}

/// A node's state after the insertion: a `reg` recorded past `q` moves four
/// bytes on.
pub open spec fn shift_node(n: NodeState, q: int) -> NodeState {
    if n.has_reg && n.reg_offset > q {
        NodeState { reg_offset: (n.reg_offset + 4) as usize, ..n }
    } else {
        n
    }
}

/// The open nodes after the insertion.
pub open spec fn shift_stack(st: Seq<NodeState>, q: int) -> Seq<NodeState> {
    Seq::new(st.len(), |i: int| shift_node(st[i], q))
}

/// Every `reg` of an open node lies inside `b`, past the header, and wholly
/// before `q` or starting past it.
pub open spec fn regs_split(st: Seq<NodeState>, q: int, len: int) -> bool {
    forall|i: int|
        0 <= i < st.len() && (#[trigger] st[i]).has_reg ==> {
            &&& st[i].reg_offset >= FDT_HEADER_SIZE
            &&& st[i].reg_offset + st[i].reg_len <= len
            &&& (st[i].reg_offset + st[i].reg_len <= q || st[i].reg_offset > q)
        }
}

/// Every `reg` of an open node lies past the header and wholly before `q`.
pub open spec fn regs_before(st: Seq<NodeState>, q: int) -> bool {
    forall|i: int|
        0 <= i < st.len() && (#[trigger] st[i]).has_reg ==> st[i].reg_offset >= FDT_HEADER_SIZE
            && st[i].reg_offset + st[i].reg_len <= q
}

proof fn lemma_be32_after(b: Seq<u8>, b2: Seq<u8>, q: int, x: int)
    requires
        nop_bytes(b, b2, q),
        q <= x,
        x + 4 <= b.len(),
    ensures
        be32(b2, x + 4) == be32(b, x),
{
    assert(b2[x + 4] == b[x]);
    assert(b2[x + 5] == b[x + 1]);
    assert(b2[x + 6] == b[x + 2]);
    assert(b2[x + 7] == b[x + 3]);
}

proof fn lemma_be32_before(b: Seq<u8>, b2: Seq<u8>, q: int, x: int)
    requires
        nop_bytes(b, b2, q),
        FDT_HEADER_SIZE <= x,
        x + 4 <= q,
    ensures
        be32(b2, x) == be32(b, x),
{
    assert(b2[x] == b[x]);
    assert(b2[x + 1] == b[x + 1]);
    assert(b2[x + 2] == b[x + 2]);
    assert(b2[x + 3] == b[x + 3]);
}

proof fn lemma_cstr_end_after(b: Seq<u8>, b2: Seq<u8>, q: int, x: int)
    requires
        nop_bytes(b, b2, q),
        q <= x,
    ensures
        cstr_end(b2, x + 4) == (match cstr_end(b, x) {
            Some(e) => Some(e + 4),
            None => None,
        }),
    decreases b.len() - x,
{
    if x < b.len() {
        assert(b2[x + 4] == b[x]);
        if b[x] != 0 {
            lemma_cstr_end_after(b, b2, q, x + 1);
        }
    }
}

proof fn lemma_cstr_end_before(b: Seq<u8>, b2: Seq<u8>, q: int, x: int, e: int)
    requires
        nop_bytes(b, b2, q),
        FDT_HEADER_SIZE <= x,
        cstr_end(b, x) == Some(e),
        e < q,
    ensures
        cstr_end(b2, x) == Some(e),
    decreases e - x,
{
    lemma_cstr_end(b, x);
    assert(b2[x] == b[x]);
    if x < e {
        lemma_cstr_end_before(b, b2, q, x + 1, e);
    }
}

proof fn lemma_subrange_after(b: Seq<u8>, b2: Seq<u8>, q: int, x: int, y: int)
    requires
        nop_bytes(b, b2, q),
        q <= x <= y <= b.len(),
    ensures
        b2.subrange(x + 4, y + 4) == b.subrange(x, y),
{
    assert forall|i: int| 0 <= i < y - x implies b2.subrange(x + 4, y + 4)[i] == b.subrange(
        x,
        y,
    )[i] by {
        assert(b2[x + i + 4] == b[x + i]);
    }
    assert(b2.subrange(x + 4, y + 4) =~= b.subrange(x, y));
}

proof fn lemma_subrange_before(b: Seq<u8>, b2: Seq<u8>, q: int, x: int, y: int)
    requires
        nop_bytes(b, b2, q),
        FDT_HEADER_SIZE <= x <= y <= q,
    ensures
        b2.subrange(x, y) == b.subrange(x, y),
{
    assert forall|i: int| 0 <= i < y - x implies b2.subrange(x, y)[i] == b.subrange(x, y)[i] by {
        assert(b2[x + i] == b[x + i]);
    }
    assert(b2.subrange(x, y) =~= b.subrange(x, y));
}

proof fn lemma_align4_shift(x: int)
    ensures
        spec_align4(x + 4) == spec_align4(x) + 4,
{
    assert((x + 7) / 4 == (x + 3) / 4 + 1);
}

proof fn lemma_decode_shift(b: Seq<u8>, b2: Seq<u8>, q: int, n: NodeState)
    requires
        nop_bytes(b, b2, q),
        b2.len() <= usize::MAX,
        n.has_reg,
        n.reg_offset >= FDT_HEADER_SIZE,
        n.reg_offset + n.reg_len <= b.len(),
        n.reg_offset + n.reg_len <= q || n.reg_offset > q,
    ensures
        spec_decode_reg_address(
            b2,
            shift_node(n, q).reg_offset as int,
            n.reg_len as int,
            n.address_cells as int,
            n.size_cells as int,
        ) == spec_decode_reg_address(
            b,
            n.reg_offset as int,
            n.reg_len as int,
            n.address_cells as int,
            n.size_cells as int,
        ),
{
    let off = n.reg_offset as int;
    let len = n.reg_len as int;
    let ac = n.address_cells as int;
    let sc = n.size_cells as int;
    if 1 <= ac <= 2 && sc >= 1 && len >= (ac + sc) * 4 {
        if off > q {
            assert(shift_node(n, q).reg_offset == off + 4);
            lemma_be32_after(b, b2, q, off);
            if ac == 2 {
                lemma_be32_after(b, b2, q, off + 4);
            }
        } else {
            lemma_be32_before(b, b2, q, off);
            if ac == 2 {
                lemma_be32_before(b, b2, q, off + 4);
            }
        }
    }
}

/// The property name at `ns` in `b` is found at `ns` moved by the insertion
/// in `b2`, with the same bytes.
proof fn lemma_name_moved(b: Seq<u8>, b2: Seq<u8>, q: int, s: int, moved: bool, ns: int)
    requires
        nop_bytes(b, b2, q),
        moved ==> q <= s <= ns,
        !moved ==> (FDT_HEADER_SIZE <= ns && (cstr_end(b, ns) matches Some(ne) && ne < q)),
    ensures
        cstr_end(b2, ns + moved_strings(s, moved) - s) == (match cstr_end(b, ns) {
            Some(ne) => Some(ne + moved_strings(s, moved) - s),
            None => None,
        }),
        cstr_end(b, ns) matches Some(ne) ==> b2.subrange(
            ns + moved_strings(s, moved) - s,
            ne + moved_strings(s, moved) - s,
        ) == b.subrange(ns, ne),
{
    lemma_cstr_end(b, ns);
    if moved {
        lemma_cstr_end_after(b, b2, q, ns);
        if let Some(ne) = cstr_end(b, ns) {
            lemma_subrange_after(b, b2, q, ns, ne);
        }
    } else {
        let ne = cstr_end(b, ns)->Some_0;
        lemma_cstr_end_before(b, b2, q, ns, ne);
        lemma_subrange_before(b, b2, q, ns, ne);
    }
}

/// Past the insertion, each step of the UART walk is the same step, four
/// bytes later.
proof fn lemma_uart_step_after(
    b: Seq<u8>,
    b2: Seq<u8>,
    q: int,
    s: int,
    moved: bool,
    pos: int,
    st: Seq<NodeState>,
)
    requires
        nop_bytes(b, b2, q),
        b2.len() <= usize::MAX,
        moved ==> q <= s,
        q <= pos,
        pos + 4 <= b.len(),
        regs_split(st, q, b.len() as int),
        step_fits(b, s, pos, st.len() as int, q, moved),
    ensures
        match uart_step_spec(b, s, pos, st) {
            SpecStep::Next(p2, st2) => {
                &&& uart_step_spec(b2, moved_strings(s, moved), pos + 4, shift_stack(st, q))
                    == SpecStep::<Seq<NodeState>, usize>::Next(p2 + 4, shift_stack(st2, q))
                &&& regs_split(st2, q, b.len() as int)
            },
            SpecStep::Stop(r) => uart_step_spec(b2, moved_strings(s, moved), pos + 4, shift_stack(st, q))
                == SpecStep::<Seq<NodeState>, usize>::Stop(r),
        },
{
    let sh = shift_stack(st, q);
    lemma_be32_after(b, b2, q, pos);
    if st.len() > 0 {
        assert(sh.last() == shift_node(st.last(), q));
    }
    match FdtToken::spec_from_raw(be32(b, pos) as u32) {
        Some(FdtToken::BeginNode) => {
            lemma_cstr_end_after(b, b2, q, pos + 4);
            if st.len() < 16 {
                match cstr_end(b, pos + 4) {
                    Some(e) => {
                        lemma_align4_shift(e + 1);
                        let parent = if st.len() != 0 {
                            st.last()
                        } else {
                            NodeState::spec_default()
                        };
                        let parent2 = if sh.len() != 0 {
                            sh.last()
                        } else {
                            NodeState::spec_default()
                        };
                        assert(NodeState::child_of(parent2) == NodeState::child_of(parent));
                        assert(shift_stack(st.push(NodeState::child_of(parent)), q) =~= sh.push(
                            NodeState::child_of(parent2),
                        ));
                    },
                    None => {},
                }
            }
        },
        Some(FdtToken::EndNode) => {
            if st.len() > 0 {
                if st.last().is_uart && st.last().has_reg {
                    lemma_decode_shift(b, b2, q, st.last());
                } else {
                    assert(shift_stack(st.drop_last(), q) =~= sh.drop_last());
                }
            }
        },
        Some(FdtToken::Prop) => {
            lemma_uart_prop_after(b, b2, q, s, moved, pos, st);
        },
        _ => {},
    }
}

#[verifier::spinoff_prover]
#[verifier::rlimit(40)]
proof fn lemma_uart_prop_after(
    b: Seq<u8>,
    b2: Seq<u8>,
    q: int,
    s: int,
    moved: bool,
    pos: int,
    st: Seq<NodeState>,
)
    requires
        nop_bytes(b, b2, q),
        b2.len() <= usize::MAX,
        moved ==> q <= s,
        q <= pos,
        pos + 4 <= b.len(),
        regs_split(st, q, b.len() as int),
        step_fits(b, s, pos, st.len() as int, q, moved),
        FdtToken::spec_from_raw(be32(b, pos) as u32) == Some(FdtToken::Prop),
    ensures
        match uart_step_spec(b, s, pos, st) {
            SpecStep::Next(p2, st2) => {
                &&& uart_step_spec(b2, moved_strings(s, moved), pos + 4, shift_stack(st, q))
                    == SpecStep::<Seq<NodeState>, usize>::Next(p2 + 4, shift_stack(st2, q))
                &&& regs_split(st2, q, b.len() as int)
            },
            SpecStep::Stop(r) => uart_step_spec(b2, moved_strings(s, moved), pos + 4, shift_stack(st, q))
                == SpecStep::<Seq<NodeState>, usize>::Stop(r),
        },
{
    let sh = shift_stack(st, q);
    lemma_be32_after(b, b2, q, pos);
    if pos + 12 <= b.len() && st.len() > 0 {
        assert(sh.last() == shift_node(st.last(), q));
        lemma_be32_after(b, b2, q, pos + 4);
        lemma_be32_after(b, b2, q, pos + 8);
        let len = be32(b, pos + 4);
        let ns = s + be32(b, pos + 8);
        let value = pos + 12;
        lemma_name_moved(b, b2, q, s, moved, ns);
        match cstr_end(b, ns) {
            Some(ne) => {
                let name = b.subrange(ns, ne);
                if value + len <= b.len() {
                    lemma_subrange_after(b, b2, q, value, value + len);
                    if value + 4 <= b.len() {
                        lemma_be32_after(b, b2, q, value);
                    }
                    lemma_align4_shift(value + len);
                    let last = st.last();
                    match apply_prop(b, last, name, value, len) {
                        Some(node) => {
                            assert(apply_prop(b2, shift_node(last, q), name, value + 4, len) == Some(
                                shift_node(node, q),
                            ));
                            assert(shift_stack(st.update(st.len() - 1, node), q) =~= sh.update(
                                sh.len() - 1,
                                shift_node(node, q),
                            ));
                            let st2 = st.update(st.len() - 1, node);
                            assert forall|i: int|
                                0 <= i < st2.len() && (#[trigger] st2[i]).has_reg implies {
                                &&& st2[i].reg_offset >= FDT_HEADER_SIZE
                                &&& st2[i].reg_offset + st2[i].reg_len <= b.len()
                                &&& (st2[i].reg_offset + st2[i].reg_len <= q || st2[i].reg_offset
                                    > q)
                            } by {
                                if i != st.len() - 1 {
                                    assert(st2[i] == st[i]);
                                }
                            }
                        },
                        None => {
                            assert(apply_prop(b2, shift_node(last, q), name, value + 4, len)
                                is None);
                        },
                    }
                }
            },
            None => {},
        }
    }
}

/// From `q` on, the UART walk of `b2` is that of `b`, four bytes later.
proof fn lemma_uart_walk_after(
    b: Seq<u8>,
    b2: Seq<u8>,
    q: int,
    s: int,
    moved: bool,
    pos: int,
    st: Seq<NodeState>,
)
    requires
        nop_bytes(b, b2, q),
        b2.len() <= usize::MAX,
        moved ==> q <= s,
        q <= pos,
        regs_split(st, q, b.len() as int),
        uart_nop_fits(b, s, pos, st, q, moved),
    ensures
        uart_walk(b2, moved_strings(s, moved), pos + 4, shift_stack(st, q)) == uart_walk(
            b,
            s,
            pos,
            st,
        ),
    decreases b.len() + 4 - pos,
{
    if pos + 4 <= b.len() {
        lemma_uart_step_advances(b, s, pos, st);
        lemma_uart_step_after(b, b2, q, s, moved, pos, st);
        match uart_step_spec(b, s, pos, st) {
            SpecStep::Next(p2, st2) => {
                lemma_uart_walk_after(b, b2, q, s, moved, p2, st2);
            },
            SpecStep::Stop(_) => {},
        }
    }
}

/// Before `q`, each step of the UART walk of `b2` is the same as that of `b`.
#[verifier::spinoff_prover]
#[verifier::rlimit(40)]
proof fn lemma_uart_step_before(
    b: Seq<u8>,
    b2: Seq<u8>,
    q: int,
    s: int,
    moved: bool,
    pos: int,
    st: Seq<NodeState>,
)
    requires
        nop_bytes(b, b2, q),
        b2.len() <= usize::MAX,
        moved ==> q <= s,
        FDT_HEADER_SIZE <= pos < q,
        pos + 4 <= b.len(),
        step_fits(b, s, pos, st.len() as int, q, moved),
        uart_step_spec(b, s, pos, st) matches SpecStep::Next(p2, _) ==> p2 <= q,
        regs_before(st, q),
    ensures
        uart_step_spec(b2, moved_strings(s, moved), pos, st) == uart_step_spec(b, s, pos, st),
        uart_step_spec(b, s, pos, st) matches SpecStep::Next(_, st2) ==> regs_before(st2, q),
{
    lemma_uart_step_advances(b, s, pos, st);
    lemma_be32_before(b, b2, q, pos);
    match FdtToken::spec_from_raw(be32(b, pos) as u32) {
        Some(FdtToken::BeginNode) => {
            if st.len() < 16 {
                let e = cstr_end(b, pos + 4)->Some_0;
                lemma_cstr_end(b, pos + 4);
                lemma_cstr_end_before(b, b2, q, pos + 4, e);
            }
        },
        Some(FdtToken::EndNode) => {
            if st.len() > 0 {
                if st.last().is_uart && st.last().has_reg {
                    assert(st[st.len() - 1] == st.last());
                    assert(shift_node(st.last(), q) == st.last());
                    lemma_decode_shift(b, b2, q, st.last());
                } else {
                    let st2 = st.drop_last();
                    assert forall|i: int|
                        0 <= i < st2.len() && (#[trigger] st2[i]).has_reg implies st2[i].reg_offset
                        >= FDT_HEADER_SIZE && st2[i].reg_offset + st2[i].reg_len <= q by {
                        assert(st2[i] == st[i]);
                    }
                }
            }
        },
        Some(FdtToken::Prop) => {
            if st.len() > 0 {
                lemma_be32_before(b, b2, q, pos + 4);
                lemma_be32_before(b, b2, q, pos + 8);
                let len = be32(b, pos + 4);
                let ns = s + be32(b, pos + 8);
                let value = pos + 12;
                if moved {
                    lemma_name_moved(b, b2, q, s, moved, ns);
                } else {
                    lemma_name_moved(b, b2, q, s, moved, ns);
                }
                if let Some(ne) = cstr_end(b, ns) {
                    lemma_subrange_before(b, b2, q, value, value + len);
                    let name = b.subrange(ns, ne);
                    if name == spec_address_cells() || name == spec_size_cells() {
                        lemma_be32_before(b, b2, q, value);
                    }
                    if let SpecStep::Next(_, st2) = uart_step_spec(b, s, pos, st) {
                        assert forall|i: int|
                            0 <= i < st2.len() && (#[trigger] st2[i]).has_reg implies st2[i].reg_offset
                            >= FDT_HEADER_SIZE && st2[i].reg_offset + st2[i].reg_len <= q by {
                            if i != st.len() - 1 {
                                assert(st2[i] == st[i]);
                            }
                        }
                    }
                }
            }
        },
        _ => {},
    }
}

proof fn lemma_uart_fits_not_short(
    b: Seq<u8>,
    s: int,
    pos: int,
    st: Seq<NodeState>,
    q: int,
    moved: bool,
)
    ensures
        uart_nop_fits(b, s, pos, st, q, moved) && pos < q ==> 0 <= pos && pos + 4 <= b.len(),
{
}

/// At `q`, the UART walk of `b2` skips the inserted nop and goes on as that of
/// `b`.
proof fn lemma_uart_walk_at(
    b: Seq<u8>,
    b2: Seq<u8>,
    q: int,
    s: int,
    moved: bool,
    st: Seq<NodeState>,
)
    requires
        nop_bytes(b, b2, q),
        b2.len() <= usize::MAX,
        moved ==> q <= s,
        regs_before(st, q),
        uart_nop_fits(b, s, q, st, q, moved),
    ensures
        uart_walk(b2, moved_strings(s, moved), q, st) == uart_walk(b, s, q, st),
{
    assert(be32(b2, q) == 4);
    assert(uart_step_spec(b2, moved_strings(s, moved), q, st) == SpecStep::<
        Seq<NodeState>,
        usize,
    >::Next(q + 4, st));
    assert(shift_stack(st, q) =~= st);
    lemma_uart_walk_after(b, b2, q, s, moved, q, st);
}

/// Up to `q`, the UART walk of `b2` is that of `b`.
proof fn lemma_uart_walk_before(
    b: Seq<u8>,
    b2: Seq<u8>,
    q: int,
    s: int,
    moved: bool,
    pos: int,
    st: Seq<NodeState>,
)
    requires
        nop_bytes(b, b2, q),
        b2.len() <= usize::MAX,
        moved ==> q <= s,
        FDT_HEADER_SIZE <= pos <= q,
        uart_nop_fits(b, s, pos, st, q, moved),
        regs_before(st, q),
    ensures
        uart_walk(b2, moved_strings(s, moved), pos, st) == uart_walk(b, s, pos, st),
    decreases q - pos,
{
    if pos == q {
        lemma_uart_walk_at(b, b2, q, s, moved, st);
    } else {
        lemma_uart_fits_not_short(b, s, pos, st, q, moved);
        lemma_uart_step_advances(b, s, pos, st);
        lemma_uart_step_before(b, b2, q, s, moved, pos, st);
        lemma_uart_step_advances(b2, moved_strings(s, moved), pos, st);
        if let SpecStep::Next(p2, st2) = uart_step_spec(b, s, pos, st) {
            lemma_uart_walk_before(b, b2, q, s, moved, p2, st2);
        }
    }
}

/// Inserting a nop token at a boundary `q` between the tokens of the
/// structure block leaves the UART that `find_uart_base` finds as it was. The
/// strings block is moved along with the insertion (`moved`, where it lies past
/// `q`) or kept in place (where it lies before the structure block). The walk
/// of `b` may stop before `q` or go on past it. The law holds where the
/// insertion fits the walk (`uart_nop_fits`): `q` is a boundary the walk does
/// not step over, and what the walk reads does not run across `q`. It is left
/// out where a `#address-cells` or `#size-cells` property with fewer than four
/// value bytes stands just before `q`, since its cell word is read across `q`
/// and the nop changes it. Inserting several nops is inserting one after the
/// other.
pub proof fn lemma_nop_keeps_uart(b: Seq<u8>, b2: Seq<u8>, q: int, moved: bool)
    requires
        nop_inserted(b, b2, q, moved),
        b2.len() <= usize::MAX,
        FDT_HEADER_SIZE <= FdtHeader::spec_parse(b).off_dt_struct <= q,
        moved ==> FdtHeader::spec_parse(b).off_dt_string >= q,
        uart_nop_fits(
            b,
            FdtHeader::spec_parse(b).off_dt_string as int,
            FdtHeader::spec_parse(b).off_dt_struct as int,
            Seq::empty(),
            q,
            moved,
        ),
    ensures
        spec_find_uart_base(b2) == spec_find_uart_base(b),
{
    let h = FdtHeader::spec_parse(b);
    lemma_uart_walk_before(
        b,
        b2,
        q,
        h.off_dt_string as int,
        moved,
        h.off_dt_struct as int,
        Seq::empty(),
    );
}

/// What a step of the timebase walk at `pos` must read for the insertion at
/// `q` to leave it as it was: as `step_fits` says, with the word of a
/// `timebase-frequency` property that the walk takes, or else the whole value
/// of a property before `q`, ending by `q`.
pub open spec fn timebase_step_fits(
    b: Seq<u8>,
    strings: int,
    pos: int,
    scan: CpuScan,
    q: int,
    moved: bool,
) -> bool {
    let tok = FdtToken::spec_from_raw(be32(b, pos) as u32);
    let ns = prop_name_start(b, strings, pos);
    let len = be32(b, pos + 4);
    let value = pos + 12;
    &&& pos < q ==> pos + 4 <= q
    &&& (pos < q && tok == Some(FdtToken::BeginNode)) ==> (cstr_end(b, pos + 4) matches Some(e) && e < q)
    &&& (pos < q && tok == Some(FdtToken::Prop)) ==> {
        &&& pos + 12 <= q
        &&& cstr_end(b, ns) matches Some(ne) ==> if b.subrange(ns, ne) == spec_timebase_frequency()
            && scan.is_cpu {
            value + 4 <= q
        } else {
            value + len <= q
        }
    }
    &&& (!moved && tok == Some(FdtToken::Prop) && pos + 12 <= b.len()) ==> {
        &&& FDT_HEADER_SIZE <= ns
        &&& cstr_end(b, ns) matches Some(ne) && ne < q
    }
}

/// Whether the insertion at `q` fits the timebase walk of `b` from `pos`, as
/// `uart_nop_fits` says of the UART walk.
pub open spec fn timebase_nop_fits(
    b: Seq<u8>,
    strings: int,
    pos: int,
    scan: CpuScan,
    q: int,
    moved: bool,
) -> bool
    decreases b.len() + 4 - pos,
{
    if pos < 0 || pos + 4 > b.len() {
        pos >= q
    } else {
        proof {
            lemma_timebase_step_advances(b, strings, pos, scan);
        }
        timebase_step_fits(b, strings, pos, scan, q, moved) && match timebase_step_spec(
            b,
            strings,
            pos,
            scan,
        ) {
            SpecStep::Next(p2, next) => (pos < q ==> p2 <= q) && timebase_nop_fits(
                b,
                strings,
                p2,
                next,
                q,
                moved,
            ),
            SpecStep::Stop(_) => true,
        }
    }
}

#[verifier::spinoff_prover]
proof fn lemma_timebase_step_after(
    b: Seq<u8>,
    b2: Seq<u8>,
    q: int,
    s: int,
    moved: bool,
    pos: int,
    scan: CpuScan,
)
    requires
        nop_bytes(b, b2, q),
        moved ==> q <= s,
        q <= pos,
        pos + 4 <= b.len(),
        timebase_step_fits(b, s, pos, scan, q, moved),
    ensures
        timebase_step_spec(b2, moved_strings(s, moved), pos + 4, scan) == (match timebase_step_spec(
            b,
            s,
            pos,
            scan,
        ) {
            SpecStep::Next(p2, next) => SpecStep::Next(p2 + 4, next),
            SpecStep::Stop(r) => SpecStep::<CpuScan, u64>::Stop(r),
        }),
{
    lemma_be32_after(b, b2, q, pos);
    match FdtToken::spec_from_raw(be32(b, pos) as u32) {
        Some(FdtToken::BeginNode) => {
            lemma_cstr_end_after(b, b2, q, pos + 4);
            match cstr_end(b, pos + 4) {
                Some(e) => {
                    lemma_cstr_end(b, pos + 4);
                    lemma_align4_shift(e + 1);
                    lemma_subrange_after(b, b2, q, pos + 4, e);
                },
                None => {},
            }
        },
        Some(FdtToken::Prop) => {
            if pos + 12 <= b.len() {
                lemma_be32_after(b, b2, q, pos + 4);
                lemma_be32_after(b, b2, q, pos + 8);
                let len = be32(b, pos + 4);
                let ns = s + be32(b, pos + 8);
                let value = pos + 12;
                lemma_name_moved(b, b2, q, s, moved, ns);
                if value + 4 <= b.len() {
                    lemma_be32_after(b, b2, q, value);
                }
                lemma_align4_shift(value + len);
            }
        },
        _ => {},
    }
}

proof fn lemma_timebase_walk_after(
    b: Seq<u8>,
    b2: Seq<u8>,
    q: int,
    s: int,
    moved: bool,
    pos: int,
    scan: CpuScan,
)
    requires
        nop_bytes(b, b2, q),
        moved ==> q <= s,
        q <= pos,
        timebase_nop_fits(b, s, pos, scan, q, moved),
    ensures
        timebase_walk(b2, moved_strings(s, moved), pos + 4, scan) == timebase_walk(b, s, pos, scan),
    decreases b.len() + 4 - pos,
{
    if pos + 4 <= b.len() {
        lemma_timebase_step_advances(b, s, pos, scan);
        lemma_timebase_step_after(b, b2, q, s, moved, pos, scan);
        match timebase_step_spec(b, s, pos, scan) {
            SpecStep::Next(p2, next) => {
                lemma_timebase_walk_after(b, b2, q, s, moved, p2, next);
            },
            SpecStep::Stop(_) => {},
        }
    }
}

#[verifier::spinoff_prover]
proof fn lemma_timebase_step_before(
    b: Seq<u8>,
    b2: Seq<u8>,
    q: int,
    s: int,
    moved: bool,
    pos: int,
    scan: CpuScan,
)
    requires
        nop_bytes(b, b2, q),
        moved ==> q <= s,
        FDT_HEADER_SIZE <= pos < q,
        pos + 4 <= b.len(),
        timebase_step_fits(b, s, pos, scan, q, moved),
    ensures
        timebase_step_spec(b2, moved_strings(s, moved), pos, scan) == timebase_step_spec(
            b,
            s,
            pos,
            scan,
        ),
{
    lemma_be32_before(b, b2, q, pos);
    match FdtToken::spec_from_raw(be32(b, pos) as u32) {
        Some(FdtToken::BeginNode) => {
            let e = cstr_end(b, pos + 4)->Some_0;
            lemma_cstr_end(b, pos + 4);
            lemma_cstr_end_before(b, b2, q, pos + 4, e);
            lemma_subrange_before(b, b2, q, pos + 4, e);
        },
        Some(FdtToken::Prop) => {
            lemma_be32_before(b, b2, q, pos + 4);
            lemma_be32_before(b, b2, q, pos + 8);
            let ns = s + be32(b, pos + 8);
            let value = pos + 12;
            lemma_name_moved(b, b2, q, s, moved, ns);
            if let Some(ne) = cstr_end(b, ns) {
                if b.subrange(ns, ne) == spec_timebase_frequency() && scan.is_cpu {
                    lemma_be32_before(b, b2, q, value);
                }
            }
        },
        _ => {},
    }
}

proof fn lemma_timebase_fits_not_short(
    b: Seq<u8>,
    s: int,
    pos: int,
    scan: CpuScan,
    q: int,
    moved: bool,
)
    ensures
        timebase_nop_fits(b, s, pos, scan, q, moved) && pos < q ==> 0 <= pos && pos + 4 <= b.len(),
{
}

proof fn lemma_timebase_walk_before(
    b: Seq<u8>,
    b2: Seq<u8>,
    q: int,
    s: int,
    moved: bool,
    pos: int,
    scan: CpuScan,
)
    requires
        nop_bytes(b, b2, q),
        moved ==> q <= s,
        FDT_HEADER_SIZE <= pos <= q,
        timebase_nop_fits(b, s, pos, scan, q, moved),
    ensures
        timebase_walk(b2, moved_strings(s, moved), pos, scan) == timebase_walk(b, s, pos, scan),
    decreases q - pos,
{
    if pos == q {
        assert(be32(b2, q) == 4);
        assert(timebase_step_spec(b2, moved_strings(s, moved), q, scan) == SpecStep::<
            CpuScan,
            u64,
        >::Next(q + 4, scan));
        lemma_timebase_walk_after(b, b2, q, s, moved, q, scan);
    } else {
        lemma_timebase_fits_not_short(b, s, pos, scan, q, moved);
        lemma_timebase_step_advances(b, s, pos, scan);
        lemma_timebase_step_before(b, b2, q, s, moved, pos, scan);
        lemma_timebase_step_advances(b2, moved_strings(s, moved), pos, scan);
        if let SpecStep::Next(p2, next) = timebase_step_spec(b, s, pos, scan) {
            lemma_timebase_walk_before(b, b2, q, s, moved, p2, next);
        }
    }
}

/// Inserting a nop token at a boundary `q` between the tokens of the
/// structure block leaves the frequency that `find_timebase_frequency` finds
/// as it was, with the strings block moved along (`moved`) or kept in place,
/// where the walk of `b` stops before `q` or goes on past it, and what it
/// reads does not run across `q` (`timebase_nop_fits`). Inserting several
/// nops is inserting one after the other.
pub proof fn lemma_nop_keeps_timebase(b: Seq<u8>, b2: Seq<u8>, q: int, moved: bool)
    requires
        nop_inserted(b, b2, q, moved),
        FDT_HEADER_SIZE <= FdtHeader::spec_parse(b).off_dt_struct <= q,
        moved ==> FdtHeader::spec_parse(b).off_dt_string >= q,
        timebase_nop_fits(
            b,
            FdtHeader::spec_parse(b).off_dt_string as int,
            FdtHeader::spec_parse(b).off_dt_struct as int,
            CpuScan { depth: 0, is_cpu: false, cpu_depth: 0 },
            q,
            moved,
        ),
    ensures
        spec_find_timebase_frequency(b2) == spec_find_timebase_frequency(b),
{
    let h = FdtHeader::spec_parse(b);
    lemma_timebase_walk_before(
        b,
        b2,
        q,
        h.off_dt_string as int,
        moved,
        h.off_dt_struct as int,
        CpuScan { depth: 0, is_cpu: false, cpu_depth: 0 },
    );
}

} // verus!
