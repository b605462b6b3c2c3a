use kernel::fdt::bytes::{align4, bytes_equal, cstr_len, read_be32, skip_cstr};
use kernel::fdt::walker::{
    compatible_contains_uart, decode_reg_address, FdtHeader, FdtToken, NodeState,
};
use kernel::fdt::{check_magic, find_timebase_frequency, find_uart_base, FDT_MAGIC};

/// Builds device-tree blobs token by token.
struct Builder {
    structure: Vec<u8>,
    strings: Vec<u8>,
}

impl Builder {
    fn new() -> Self {
        Builder { structure: Vec::new(), strings: Vec::new() }
    }

    fn word(&mut self, w: u32) {
        self.structure.extend_from_slice(&w.to_be_bytes());
    }

    fn pad(&mut self) {
        while self.structure.len() % 4 != 0 {
            self.structure.push(0);
        }
    }

    fn begin(&mut self, name: &str) -> &mut Self {
        self.word(1);
        self.structure.extend_from_slice(name.as_bytes());
        self.structure.push(0);
        self.pad();
        self
    }

    fn end(&mut self) -> &mut Self {
        self.word(2);
        self
    }

    fn nop(&mut self) -> &mut Self {
        self.word(4);
        self
    }

    fn name_offset(&mut self, name: &str) -> u32 {
        let off = self.strings.len() as u32;
        self.strings.extend_from_slice(name.as_bytes());
        self.strings.push(0);
        off
    }

    fn prop(&mut self, name: &str, value: &[u8]) -> &mut Self {
        let off = self.name_offset(name);
        self.word(3);
        self.word(value.len() as u32);
        self.word(off);
        self.structure.extend_from_slice(value);
        self.pad();
        self
    }

    fn prop_cells(&mut self, name: &str, cells: &[u32]) -> &mut Self {
        let mut v = Vec::new();
        for c in cells {
            v.extend_from_slice(&c.to_be_bytes());
        }
        self.prop(name, &v)
    }

    fn finish_strings_first(&mut self) -> Vec<u8> {
        self.word(9);
        // The structure block starts word-aligned, as the format asks.
        while self.strings.len() % 4 != 0 {
            self.strings.push(0);
        }
        let off_strings = 40u32;
        let off_struct = off_strings + self.strings.len() as u32;
        let total = off_struct + self.structure.len() as u32;
        let header = [
            FDT_MAGIC,
            total,
            off_struct,
            off_strings,
            40,
            17,
            16,
            0,
            self.strings.len() as u32,
            self.structure.len() as u32,
        ];
        let mut blob = Vec::new();
        for w in header {
            blob.extend_from_slice(&w.to_be_bytes());
        }
        blob.extend_from_slice(&self.strings);
        blob.extend_from_slice(&self.structure);
        blob
    }

    fn finish(&mut self) -> Vec<u8> {
        self.word(9);
        let off_struct = 40u32;
        let off_strings = off_struct + self.structure.len() as u32;
        let total = off_strings + self.strings.len() as u32;
        let header = [
            FDT_MAGIC,
            total,
            off_struct,
            off_strings,
            40,
            17,
            16,
            0,
            self.strings.len() as u32,
            self.structure.len() as u32,
        ];
        let mut blob = Vec::new();
        for w in header {
            blob.extend_from_slice(&w.to_be_bytes());
        }
        blob.extend_from_slice(&self.structure);
        blob.extend_from_slice(&self.strings);
        blob
    }
}

fn qemu_virt_like() -> Vec<u8> {
    let mut b = Builder::new();
    b.begin("")
        .prop_cells("#address-cells", &[2])
        .prop_cells("#size-cells", &[2])
        .begin("cpus")
        .prop_cells("#address-cells", &[1])
        .prop_cells("#size-cells", &[0])
        .prop_cells("timebase-frequency", &[10_000_000])
        .begin("cpu@0")
        .prop("device_type", b"cpu\0")
        .end()
        .end()
        .begin("soc")
        .prop_cells("#address-cells", &[2])
        .prop_cells("#size-cells", &[2])
        .begin("serial@10000000")
        .prop("compatible", b"ns16550a\0")
        .prop_cells("reg", &[0, 0x1000_0000, 0, 0x100])
        .end()
        .end()
        .end();
    b.finish()
}

#[test]
fn magic_is_checked_big_endian() {
    let blob = qemu_virt_like();
    assert!(check_magic(&blob));
    assert_eq!(&blob[0..4], &[0xd0, 0x0d, 0xfe, 0xed]);
    let mut wrong = blob.clone();
    wrong[3] = 0xee;
    assert!(!check_magic(&wrong));
    assert!(!check_magic(&[0xd0, 0x0d, 0xfe]));
    assert!(!check_magic(&[]));
    assert!(!check_magic(&[0xed, 0xfe, 0x0d, 0xd0]));
}

#[test]
fn header_fields_are_read_big_endian() {
    let blob = qemu_virt_like();
    let h = FdtHeader::new(&blob);
    assert_eq!(h.magic, 0xd00d_feed);
    assert_eq!(h.total_size as usize, blob.len());
    assert_eq!(h.off_dt_struct, 40);
    assert_eq!(h.off_memrsvmap, 40);
    assert_eq!(h.version, 17);
    assert_eq!(h.last_comp_version, 16);
    assert_eq!(h.boot_cpuid_phys, 0);
    assert_eq!(h.off_dt_string as usize + h.size_dt_strings as usize, blob.len());
}

#[test]
fn finds_qemu_uart() {
    assert_eq!(find_uart_base(&qemu_virt_like()), Some(0x1000_0000));
}

#[test]
fn finds_dw_apb_uart_in_second_compatible_entry() {
    let mut b = Builder::new();
    b.begin("")
        .prop_cells("#address-cells", &[1])
        .prop_cells("#size-cells", &[1])
        .begin("serial@10000000")
        .prop("compatible", b"starfive,jh7110-uart\0snps,dw-apb-uart\0")
        .prop_cells("reg", &[0x1000_0000, 0x1_0000])
        .end()
        .end();
    assert_eq!(find_uart_base(&b.finish()), Some(0x1000_0000));
}

#[test]
fn child_inherits_parent_cell_sizes() {
    // The root's own #address-cells = 1 is what its child reads its reg with.
    let mut b = Builder::new();
    b.begin("")
        .prop_cells("#address-cells", &[1])
        .prop_cells("#size-cells", &[1])
        .begin("uart@2000")
        .prop("compatible", b"ns16550a")
        .prop_cells("reg", &[0x2000, 0x100])
        .end()
        .end();
    assert_eq!(find_uart_base(&b.finish()), Some(0x2000));
}

#[test]
fn default_cells_are_two_and_one() {
    assert_eq!(NodeState::default().address_cells, 2);
    assert_eq!(NodeState::default().size_cells, 1);
    let mut b = Builder::new();
    b.begin("")
        .begin("uart")
        .prop("compatible", b"ns16550a\0")
        .prop_cells("reg", &[0x1, 0x2000_0000, 0x1000])
        .end()
        .end();
    assert_eq!(find_uart_base(&b.finish()), Some(0x1_2000_0000));
}

#[test]
fn other_devices_are_skipped() {
    let mut b = Builder::new();
    b.begin("")
        .begin("rtc")
        .prop("compatible", b"google,goldfish-rtc\0")
        .prop_cells("reg", &[0, 0x101000, 0, 0x1000])
        .end()
        .nop()
        .begin("serial")
        .nop()
        .prop("compatible", b"ns16550\0ns16550a\0")
        .prop_cells("reg", &[0, 0x1000_0000, 0, 0x100])
        .end()
        .end();
    assert_eq!(find_uart_base(&b.finish()), Some(0x1000_0000));
}

#[test]
fn no_uart_gives_none() {
    let mut b = Builder::new();
    b.begin("").begin("memory").prop_cells("reg", &[0, 0x8000_0000, 0, 0x800_0000]).end().end();
    assert_eq!(find_uart_base(&b.finish()), None);
}

#[test]
fn uart_without_reg_is_not_taken() {
    let mut b = Builder::new();
    b.begin("").begin("serial").prop("compatible", b"ns16550a\0").end().end();
    assert_eq!(find_uart_base(&b.finish()), None);
}

#[test]
fn first_uart_with_bad_reg_ends_the_search() {
    let mut b = Builder::new();
    b.begin("")
        .begin("serial@0")
        .prop("compatible", b"ns16550a\0")
        .prop_cells("reg", &[0, 0x1000])
        .end()
        .begin("serial@1")
        .prop("compatible", b"ns16550a\0")
        .prop_cells("reg", &[0, 0x2000, 0x100])
        .end()
        .end();
    assert_eq!(find_uart_base(&b.finish()), None);
}

#[test]
fn zero_address_cells_gives_none() {
    let mut b = Builder::new();
    b.begin("")
        .prop_cells("#address-cells", &[0])
        .begin("serial")
        .prop("compatible", b"ns16550a\0")
        .prop_cells("reg", &[0x1000_0000, 0x100])
        .end()
        .end();
    assert_eq!(find_uart_base(&b.finish()), None);
}

#[test]
fn nesting_deeper_than_the_stack_gives_none() {
    let mut b = Builder::new();
    for _ in 0..16 {
        b.begin("n");
    }
    b.begin("serial").prop("compatible", b"ns16550a\0").prop_cells("reg", &[0, 0x10, 0]).end();
    assert_eq!(find_uart_base(&b.finish()), None);
    let mut b = Builder::new();
    for _ in 0..15 {
        b.begin("n");
    }
    b.begin("serial").prop("compatible", b"ns16550a\0").prop_cells("reg", &[0, 0x10, 0]).end();
    assert_eq!(find_uart_base(&b.finish()), Some(0x10));
}

#[test]
fn malformed_blobs_give_none() {
    let blob = qemu_virt_like();
    // Cut off inside the structure block.
    assert_eq!(find_uart_base(&blob[..100]), None);
    // Too short for a header.
    assert_eq!(find_uart_base(&blob[..39]), None);
    // An unknown token.
    let mut bad = blob.clone();
    bad[40..44].copy_from_slice(&7u32.to_be_bytes());
    assert_eq!(find_uart_base(&bad), None);
    // A property outside every node.
    let mut b = Builder::new();
    b.prop("compatible", b"ns16550a\0");
    assert_eq!(find_uart_base(&b.finish()), None);
    // An end of node outside every node.
    let mut b = Builder::new();
    b.end();
    assert_eq!(find_uart_base(&b.finish()), None);
    // Only the end token.
    let mut b = Builder::new();
    assert_eq!(find_uart_base(&b.finish()), None);
}

#[test]
fn finds_timebase_frequency_in_cpus() {
    assert_eq!(find_timebase_frequency(&qemu_virt_like()), Some(10_000_000));
    let mut b = Builder::new();
    b.begin("")
        .begin("cpus")
        .begin("cpu@0")
        .prop_cells("timebase-frequency", &[4_000_000])
        .end()
        .end()
        .end();
    assert_eq!(find_timebase_frequency(&b.finish()), Some(4_000_000));
}

#[test]
fn timebase_outside_cpus_is_ignored() {
    let mut b = Builder::new();
    b.begin("")
        .prop_cells("timebase-frequency", &[1])
        .begin("cpus")
        .end()
        .begin("soc")
        .prop_cells("timebase-frequency", &[2])
        .end()
        .end();
    assert_eq!(find_timebase_frequency(&b.finish()), None);
    let mut b = Builder::new();
    b.begin("").begin("cpus").end().end();
    assert_eq!(find_timebase_frequency(&b.finish()), None);
    assert_eq!(find_timebase_frequency(&[0u8; 10]), None);
}

#[test]
fn token_words() {
    assert_eq!(FdtToken::from_raw(1), Some(FdtToken::BeginNode));
    assert_eq!(FdtToken::from_raw(2), Some(FdtToken::EndNode));
    assert_eq!(FdtToken::from_raw(3), Some(FdtToken::Prop));
    assert_eq!(FdtToken::from_raw(4), Some(FdtToken::Nop));
    assert_eq!(FdtToken::from_raw(9), Some(FdtToken::End));
    assert_eq!(FdtToken::from_raw(0), None);
    assert_eq!(FdtToken::from_raw(5), None);
    assert_eq!(FdtToken::from_raw(0x0100_0000), None);
}

#[test]
fn compatible_lists() {
    let v = b"ns16550a\0";
    assert!(compatible_contains_uart(v, 0, v.len()));
    let v = b"ns16550a";
    assert!(compatible_contains_uart(v, 0, v.len()));
    let v = b"vendor,x\0\0snps,dw-apb-uart";
    assert!(compatible_contains_uart(v, 0, v.len()));
    let v = b"ns16550\0ns16550ab\0";
    assert!(!compatible_contains_uart(v, 0, v.len()));
    let v = b"xxns16550a\0";
    assert!(compatible_contains_uart(v, 2, 9));
    assert!(!compatible_contains_uart(v, 0, 11));
    assert!(!compatible_contains_uart(v, 0, 0));
}

#[test]
fn reg_decoding() {
    let v = [0x00, 0x00, 0x00, 0x01, 0x20, 0x00, 0x00, 0x00, 0, 0, 0x10, 0];
    assert_eq!(decode_reg_address(&v, 0, 12, 2, 1), Some(0x1_2000_0000));
    assert_eq!(decode_reg_address(&v, 4, 8, 1, 1), Some(0x2000_0000));
    assert_eq!(decode_reg_address(&v, 0, 12, 0, 1), None);
    assert_eq!(decode_reg_address(&v, 0, 12, 3, 1), None);
    assert_eq!(decode_reg_address(&v, 0, 12, 1, 0), None);
    assert_eq!(decode_reg_address(&v, 0, 12, 2, 2), None);
    assert_eq!(decode_reg_address(&v, 0, 8, 1, 1), Some(1));
    assert_eq!(decode_reg_address(&v, 0, 12, 1, usize::MAX), None);
    assert_eq!(decode_reg_address(&v, 0, 12, 2, usize::MAX / 4), None);
}

#[test]
fn byte_helpers() {
    let data = [0x12, 0x34, 0x56, 0x78, b'a', b'b', 0, b'c'];
    assert_eq!(read_be32(&data, 0), 0x1234_5678);
    assert_eq!(read_be32(&data, 1), 0x3456_7861);
    assert_eq!(cstr_len(&data, 4), Some(2));
    assert_eq!(cstr_len(&data, 6), Some(0));
    assert_eq!(cstr_len(&data, 7), None);
    assert_eq!(cstr_len(&data, 100), None);
    assert_eq!(skip_cstr(&data, 4), Some(7));
    assert_eq!(skip_cstr(&data, 7), None);
    assert_eq!(align4(0), 0);
    assert_eq!(align4(1), 4);
    assert_eq!(align4(4), 4);
    assert_eq!(align4(7), 8);
    assert_eq!(align4(usize::MAX - 3), usize::MAX - 3);
    assert!(bytes_equal(&data, 4, 6, b"ab"));
    assert!(!bytes_equal(&data, 4, 6, b"abc"));
    assert!(!bytes_equal(&data, 4, 6, b"ac"));
    assert!(bytes_equal(&data, 6, 6, b""));
}

fn uart_tree(nops_at: &[usize]) -> Vec<u8> {
    uart_tree_laid_out(nops_at, false)
}

fn uart_tree_laid_out(nops_at: &[usize], strings_first: bool) -> Vec<u8> {
    // Tokens of a small tree; a nop goes before each listed token index.
    let mut b = Builder::new();
    let steps: Vec<Box<dyn Fn(&mut Builder)>> = vec![
        Box::new(|b: &mut Builder| {
            b.begin("");
        }),
        Box::new(|b: &mut Builder| {
            b.prop_cells("#address-cells", &[2]);
        }),
        Box::new(|b: &mut Builder| {
            b.begin("cpus");
        }),
        Box::new(|b: &mut Builder| {
            b.prop_cells("timebase-frequency", &[24_000_000]);
        }),
        Box::new(|b: &mut Builder| {
            b.end();
        }),
        Box::new(|b: &mut Builder| {
            b.begin("serial");
        }),
        Box::new(|b: &mut Builder| {
            b.prop("compatible", b"snps,dw-apb-uart\0");
        }),
        Box::new(|b: &mut Builder| {
            b.prop_cells("reg", &[0, 0x1000_0000, 0x1_0000]);
        }),
        Box::new(|b: &mut Builder| {
            b.end();
        }),
        Box::new(|b: &mut Builder| {
            b.end();
        }),
    ];
    for (i, step) in steps.iter().enumerate() {
        for _ in nops_at.iter().filter(|&&n| n == i) {
            b.nop();
        }
        step(&mut b);
    }
    if strings_first {
        b.finish_strings_first()
    } else {
        b.finish()
    }
}

#[test]
fn inserted_nops_change_nothing() {
    let plain = uart_tree(&[]);
    assert_eq!(find_uart_base(&plain), Some(0x1000_0000));
    assert_eq!(find_timebase_frequency(&plain), Some(24_000_000));
    for nops in [vec![0], vec![3, 3], vec![5, 7, 9], vec![0, 1, 2, 3, 4, 5, 6, 7, 8, 9]] {
        let with = uart_tree(&nops);
        assert_ne!(with, plain);
        assert_eq!(find_uart_base(&with), find_uart_base(&plain));
        assert_eq!(find_timebase_frequency(&with), find_timebase_frequency(&plain));
    }
}

#[test]
fn inserted_nops_change_nothing_with_strings_first() {
    let plain = uart_tree_laid_out(&[], true);
    assert_eq!(find_uart_base(&plain), Some(0x1000_0000));
    assert_eq!(find_timebase_frequency(&plain), Some(24_000_000));
    for nops in [vec![0], vec![4, 4], vec![6, 9], vec![1, 3, 5, 7, 8]] {
        let with = uart_tree_laid_out(&nops, true);
        assert_eq!(find_uart_base(&with), Some(0x1000_0000));
        assert_eq!(find_timebase_frequency(&with), Some(24_000_000));
    }
}
