//! Byte-level writing of an executable image.
use vstd::prelude::*;
use crate::tokenizer::Error;
use crate::assembler::le32;
use crate::assembler::le64;
use crate::assembler::pairs_view;

verus! {

/// An imported DLL: its name, the functions taken from it, and where the loader puts
/// each function's address.
#[derive(PartialEq, Debug)]
pub struct ImportEntry {
    pub dll_name: String,
    pub function_names: Vec<String>,
    pub function_address_rvas: Vec<u32>,
}

/// `buf` with `data` written from position `at`, after growing it with zero bytes where
/// it is too short.
pub open spec fn written_at(buf: Seq<u8>, at: int, data: Seq<u8>) -> Seq<u8> {
    let n = if buf.len() < at + data.len() { at + data.len() } else { buf.len() as int };
    Seq::new(n as nat, |i: int| if at <= i < at + data.len() { data[i - at] } else if i < buf.len() { buf[i] } else { 0u8 })
}

/// Writes `data` into `buf` from position `at`, growing `buf` with zero bytes where it is
/// too short.
pub fn write_at_bytes(buf: &mut Vec<u8>, at: usize, data: &[u8])
    requires
        at + data@.len() <= usize::MAX,
    ensures
        final(buf)@ == written_at(old(buf)@, at as int, data@),
{
    let end = at + data.len();
    while buf.len() < end
        invariant
            end == at + data@.len(),
            old(buf)@.len() <= buf@.len() <= (if old(buf)@.len() < end { end as int } else { old(buf)@.len() as int }),
            forall|i: int| 0 <= i < old(buf)@.len() ==> buf@[i] == old(buf)@[i],
            forall|i: int| old(buf)@.len() <= i < buf@.len() ==> buf@[i] == 0u8,
        decreases end - buf@.len(),
    {
        buf.push(0u8);
    }
    let ghost grown = buf@;
    let mut k: usize = 0;
    while k < data.len()
        invariant
            end == at + data@.len(),
            k <= data@.len(),
            buf@.len() == grown.len(),
            grown.len() >= end,
            forall|i: int| 0 <= i < buf@.len() ==> buf@[i] == (if at <= i < at + k { data@[i - at] } else { grown[i] }),
        decreases data@.len() - k,
    {
        buf.set(at + k, data[k]);
        k = k + 1;
    }
    assert(buf@ =~= written_at(old(buf)@, at as int, data@));
}

/// The two bytes of a 16-bit value, least significant first.
pub open spec fn le16(v: u16) -> Seq<u8> {
    seq![(v % 256) as u8, (v / 256) as u8]
}

/// `n` zero bytes.
pub open spec fn zeros(n: nat) -> Seq<u8> {
    Seq::new(n, |i: int| 0u8)
}

fn put_bytes(out: &mut Vec<u8>, bytes: Vec<u8>)
    ensures
        final(out)@ == old(out)@ + bytes@,
{
    let mut k: usize = 0;
    while k < bytes.len()
        invariant
            k <= bytes@.len(),
            out@ == old(out)@ + bytes@.subrange(0, k as int),
        decreases bytes@.len() - k,
    {
        out.push(bytes[k]);
        assert(old(out)@ + bytes@.subrange(0, k + 1) =~= old(out)@ + bytes@.subrange(0, k as int) + seq![bytes@[k as int]]);
        k = k + 1;
    }
    assert(bytes@.subrange(0, bytes@.len() as int) =~= bytes@);
}

fn put16(out: &mut Vec<u8>, v: u16)
    ensures
        final(out)@ == old(out)@ + le16(v),
{
    put_bytes(out, vec![(v % 256) as u8, (v / 256) as u8]);
}

fn put32(out: &mut Vec<u8>, v: u32)
    ensures
        final(out)@ == old(out)@ + le32(v),
{
    put_bytes(out, vec![(v % 256) as u8, ((v / 256) % 256) as u8, ((v / 65536) % 256) as u8, ((v / 16777216) % 256) as u8]);
}

fn put64(out: &mut Vec<u8>, v: u64)
    ensures
        final(out)@ == old(out)@ + le64(v),
{
    put32(out, (v % 4294967296) as u32);
    put32(out, (v / 4294967296) as u32);
    assert(out@ =~= old(out)@ + le64(v));
}

fn put_zeros(out: &mut Vec<u8>, n: usize)
    ensures
        final(out)@ == old(out)@ + zeros(n as nat),
{
    let mut k: usize = 0;
    while k < n
        invariant
            k <= n,
            out@ == old(out)@ + zeros(k as nat),
        decreases n - k,
    {
        out.push(0u8);
        assert(old(out)@ + zeros((k + 1) as nat) =~= old(out)@ + zeros(k as nat) + seq![0u8]);
        k = k + 1;
    }
}

/// Part 1 of dos header.
pub open spec fn dos_header_part1_bytes() -> Seq<u8> {
    le16(0x5A4D)
        + le16(0x90)
        + le16(0x3)
        + le16(0x0)
        + le16(0x4)
        + le16(0x0)
        + le16(0xFFFF)
        + le16(0x0)
}

fn write_dos_header_part1(out: &mut Vec<u8>)
    ensures
        final(out)@ == old(out)@ + dos_header_part1_bytes(),
{
    put16(out, 0x5A4D);
    put16(out, 0x90);
    put16(out, 0x3);
    put16(out, 0x0);
    put16(out, 0x4);
    put16(out, 0x0);
    put16(out, 0xFFFF);
    put16(out, 0x0);
    assert(out@ =~= old(out)@ + dos_header_part1_bytes());
}

/// Part 2 of dos header.
pub open spec fn dos_header_part2_bytes() -> Seq<u8> {
    le16(0xB8)
        + le16(0x0)
        + le16(0x0)
        + le16(0x0)
        + le16(0x40)
        + le16(0x0)
        + le16(0x0)
        + le16(0x0)
}

fn write_dos_header_part2(out: &mut Vec<u8>)
    ensures
        final(out)@ == old(out)@ + dos_header_part2_bytes(),
{
    put16(out, 0xB8);
    put16(out, 0x0);
    put16(out, 0x0);
    put16(out, 0x0);
    put16(out, 0x40);
    put16(out, 0x0);
    put16(out, 0x0);
    put16(out, 0x0);
    assert(out@ =~= old(out)@ + dos_header_part2_bytes());
}

/// Part 3 of dos header.
pub open spec fn dos_header_part3_bytes() -> Seq<u8> {
    le16(0x0)
        + le16(0x0)
        + le16(0x0)
        + le16(0x0)
        + le16(0x0)
        + le16(0x0)
        + le16(0x0)
        + le16(0x0)
}

fn write_dos_header_part3(out: &mut Vec<u8>)
    ensures
        final(out)@ == old(out)@ + dos_header_part3_bytes(),
{
    put16(out, 0x0);
    put16(out, 0x0);
    put16(out, 0x0);
    put16(out, 0x0);
    put16(out, 0x0);
    put16(out, 0x0);
    put16(out, 0x0);
    put16(out, 0x0);
    assert(out@ =~= old(out)@ + dos_header_part3_bytes());
}

/// Part 4 of dos header.
pub open spec fn dos_header_part4_bytes() -> Seq<u8> {
    le16(0x0)
        + le16(0x0)
        + le16(0x0)
        + le16(0x0)
        + le16(0x0)
        + le16(0x0)
        + le32(0x80)
        + seq![0x0Eu8, 0x1Fu8, 0xBAu8, 0x0Eu8, 0x00u8, 0xB4u8, 0x09u8, 0xCDu8, 0x21u8, 0xB8u8, 0x01u8, 0x4Cu8, 0xCDu8, 0x21u8, 0x54u8, 0x68u8]
}

fn write_dos_header_part4(out: &mut Vec<u8>)
    ensures
        final(out)@ == old(out)@ + dos_header_part4_bytes(),
{
    put16(out, 0x0);
    put16(out, 0x0);
    put16(out, 0x0);
    put16(out, 0x0);
    put16(out, 0x0);
    put16(out, 0x0);
    put32(out, 0x80);
    put_bytes(out, vec![0x0Eu8, 0x1Fu8, 0xBAu8, 0x0Eu8, 0x00u8, 0xB4u8, 0x09u8, 0xCDu8, 0x21u8, 0xB8u8, 0x01u8, 0x4Cu8, 0xCDu8, 0x21u8, 0x54u8, 0x68u8]);
    assert(out@ =~= old(out)@ + dos_header_part4_bytes());
}

/// Part 5 of dos header.
pub open spec fn dos_header_part5_bytes() -> Seq<u8> {
    seq![0x69u8, 0x73u8, 0x20u8, 0x70u8, 0x72u8, 0x6Fu8, 0x67u8, 0x72u8, 0x61u8, 0x6Du8, 0x20u8, 0x63u8, 0x61u8, 0x6Eu8, 0x6Eu8, 0x6Fu8]
        + seq![0x74u8, 0x20u8, 0x62u8, 0x65u8, 0x20u8, 0x72u8, 0x75u8, 0x6Eu8, 0x20u8, 0x69u8, 0x6Eu8, 0x20u8, 0x44u8, 0x4Fu8, 0x53u8, 0x20u8]
        + seq![0x6Du8, 0x6Fu8, 0x64u8, 0x65u8, 0x2Eu8, 0x0Du8, 0x0Du8, 0x0Au8, 0x24u8, 0x00u8, 0x00u8, 0x00u8, 0x00u8, 0x00u8, 0x00u8, 0x00u8]
}

fn write_dos_header_part5(out: &mut Vec<u8>)
    ensures
        final(out)@ == old(out)@ + dos_header_part5_bytes(),
{
    put_bytes(out, vec![0x69u8, 0x73u8, 0x20u8, 0x70u8, 0x72u8, 0x6Fu8, 0x67u8, 0x72u8, 0x61u8, 0x6Du8, 0x20u8, 0x63u8, 0x61u8, 0x6Eu8, 0x6Eu8, 0x6Fu8]);
    put_bytes(out, vec![0x74u8, 0x20u8, 0x62u8, 0x65u8, 0x20u8, 0x72u8, 0x75u8, 0x6Eu8, 0x20u8, 0x69u8, 0x6Eu8, 0x20u8, 0x44u8, 0x4Fu8, 0x53u8, 0x20u8]);
    put_bytes(out, vec![0x6Du8, 0x6Fu8, 0x64u8, 0x65u8, 0x2Eu8, 0x0Du8, 0x0Du8, 0x0Au8, 0x24u8, 0x00u8, 0x00u8, 0x00u8, 0x00u8, 0x00u8, 0x00u8, 0x00u8]);
    assert(out@ =~= old(out)@ + dos_header_part5_bytes());
}

/// The DOS header, pointing to the PE header at 0x80, and the DOS stub program.
pub open spec fn dos_header_bytes() -> Seq<u8> {
    dos_header_part1_bytes() + dos_header_part2_bytes() + dos_header_part3_bytes() + dos_header_part4_bytes() + dos_header_part5_bytes()
}

fn write_dos_header(out: &mut Vec<u8>)
    ensures
        final(out)@ == old(out)@ + dos_header_bytes(),
{
    write_dos_header_part1(out);
    write_dos_header_part2(out);
    write_dos_header_part3(out);
    write_dos_header_part4(out);
    write_dos_header_part5(out);
    assert(out@ =~= old(out)@ + dos_header_bytes());
}

/// The PE signature and the COFF header: x86-64, two sections, a 240-byte optional header.
pub open spec fn coff_header_bytes() -> Seq<u8> {
    seq![0x50u8, 0x45u8, 0x00u8, 0x00u8]
        + le16(0x8664)
        + le16(0x2)
        + le32(0x0)
        + le32(0x0)
        + le32(0x0)
        + le16(0xF0)
        + le16(0x22E)
}

fn write_coff_header(out: &mut Vec<u8>)
    ensures
        final(out)@ == old(out)@ + coff_header_bytes(),
{
    put_bytes(out, vec![0x50u8, 0x45u8, 0x00u8, 0x00u8]);
    put16(out, 0x8664);
    put16(out, 0x2);
    put32(out, 0x0);
    put32(out, 0x0);
    put32(out, 0x0);
    put16(out, 0xF0);
    put16(out, 0x22E);
    assert(out@ =~= old(out)@ + coff_header_bytes());
}

/// Part 1 of optional header.
pub open spec fn optional_header_part1_bytes() -> Seq<u8> {
    le16(0x20B)
        + seq![0x02u8]
        + seq![0x2Du8]
        + le32(0x200)
        + le32(0x800)
        + le32(0x0)
        + le32(0x1000)
        + le32(0x1000)
}

fn write_optional_header_part1(out: &mut Vec<u8>)
    ensures
        final(out)@ == old(out)@ + optional_header_part1_bytes(),
{
    put16(out, 0x20B);
    put_bytes(out, vec![0x02u8]);
    put_bytes(out, vec![0x2Du8]);
    put32(out, 0x200);
    put32(out, 0x800);
    put32(out, 0x0);
    put32(out, 0x1000);
    put32(out, 0x1000);
    assert(out@ =~= old(out)@ + optional_header_part1_bytes());
}

/// Part 2 of optional header.
pub open spec fn optional_header_part2_bytes() -> Seq<u8> {
    le64(0x140000000)
        + le32(0x1000)
        + le32(0x200)
        + le16(0x4)
        + le16(0x0)
        + le16(0x0)
        + le16(0x0)
        + le16(0x5)
}

fn write_optional_header_part2(out: &mut Vec<u8>)
    ensures
        final(out)@ == old(out)@ + optional_header_part2_bytes(),
{
    put64(out, 0x140000000);
    put32(out, 0x1000);
    put32(out, 0x200);
    put16(out, 0x4);
    put16(out, 0x0);
    put16(out, 0x0);
    put16(out, 0x0);
    put16(out, 0x5);
    assert(out@ =~= old(out)@ + optional_header_part2_bytes());
}

/// Part 3 of optional header.
pub open spec fn optional_header_part3_bytes() -> Seq<u8> {
    le16(0x2)
        + le32(0x0)
        + le32(0x6000)
        + le32(0x400)
        + le32(0x0)
        + le16(0x3)
        + le16(0x160)
        + le64(0x200000)
}

fn write_optional_header_part3(out: &mut Vec<u8>)
    ensures
        final(out)@ == old(out)@ + optional_header_part3_bytes(),
{
    put16(out, 0x2);
    put32(out, 0x0);
    put32(out, 0x6000);
    put32(out, 0x400);
    put32(out, 0x0);
    put16(out, 0x3);
    put16(out, 0x160);
    put64(out, 0x200000);
    assert(out@ =~= old(out)@ + optional_header_part3_bytes());
}

/// Part 4 of optional header.
pub open spec fn optional_header_part4_bytes() -> Seq<u8> {
    le64(0x1000)
        + le64(0x100000)
        + le64(0x1000)
        + le32(0x0)
        + le32(0x10)
}

fn write_optional_header_part4(out: &mut Vec<u8>)
    ensures
        final(out)@ == old(out)@ + optional_header_part4_bytes(),
{
    put64(out, 0x1000);
    put64(out, 0x100000);
    put64(out, 0x1000);
    put32(out, 0x0);
    put32(out, 0x10);
    assert(out@ =~= old(out)@ + optional_header_part4_bytes());
}

/// The standard and Windows fields of the PE32+ optional header: entry point and code at 0x1000, image base 0x140000000, console subsystem.
pub open spec fn optional_header_bytes() -> Seq<u8> {
    optional_header_part1_bytes() + optional_header_part2_bytes() + optional_header_part3_bytes() + optional_header_part4_bytes()
}

fn write_optional_header(out: &mut Vec<u8>)
    ensures
        final(out)@ == old(out)@ + optional_header_bytes(),
{
    write_optional_header_part1(out);
    write_optional_header_part2(out);
    write_optional_header_part3(out);
    write_optional_header_part4(out);
    assert(out@ =~= old(out)@ + optional_header_bytes());
}

/// Part 1 of data directories.
pub open spec fn data_directories_part1_bytes() -> Seq<u8> {
    le32(0x0)
        + le32(0x0)
        + le32(0x5000)
        + le32(0xA0)
        + le32(0x0)
        + le32(0x0)
        + le32(0x0)
        + le32(0x0)
}

fn write_data_directories_part1(out: &mut Vec<u8>)
    ensures
        final(out)@ == old(out)@ + data_directories_part1_bytes(),
{
    put32(out, 0x0);
    put32(out, 0x0);
    put32(out, 0x5000);
    put32(out, 0xA0);
    put32(out, 0x0);
    put32(out, 0x0);
    put32(out, 0x0);
    put32(out, 0x0);
    assert(out@ =~= old(out)@ + data_directories_part1_bytes());
}

/// Part 2 of data directories.
pub open spec fn data_directories_part2_bytes() -> Seq<u8> {
    le32(0x0)
        + le32(0x0)
        + le32(0x0)
        + le32(0x0)
        + le32(0x0)
        + le32(0x0)
        + le32(0x0)
        + le32(0x0)
}

fn write_data_directories_part2(out: &mut Vec<u8>)
    ensures
        final(out)@ == old(out)@ + data_directories_part2_bytes(),
{
    put32(out, 0x0);
    put32(out, 0x0);
    put32(out, 0x0);
    put32(out, 0x0);
    put32(out, 0x0);
    put32(out, 0x0);
    put32(out, 0x0);
    put32(out, 0x0);
    assert(out@ =~= old(out)@ + data_directories_part2_bytes());
}

/// Part 3 of data directories.
pub open spec fn data_directories_part3_bytes() -> Seq<u8> {
    le32(0x0)
        + le32(0x0)
        + le32(0x0)
        + le32(0x0)
        + le32(0x0)
        + le32(0x0)
        + le32(0x0)
        + le32(0x0)
}

fn write_data_directories_part3(out: &mut Vec<u8>)
    ensures
        final(out)@ == old(out)@ + data_directories_part3_bytes(),
{
    put32(out, 0x0);
    put32(out, 0x0);
    put32(out, 0x0);
    put32(out, 0x0);
    put32(out, 0x0);
    put32(out, 0x0);
    put32(out, 0x0);
    put32(out, 0x0);
    assert(out@ =~= old(out)@ + data_directories_part3_bytes());
}

/// Part 4 of data directories.
pub open spec fn data_directories_part4_bytes() -> Seq<u8> {
    le32(0x5048)
        + le32(0x20)
        + le32(0x0)
        + le32(0x0)
        + le32(0x0)
        + le32(0x0)
        + le32(0x0)
        + le32(0x0)
}

fn write_data_directories_part4(out: &mut Vec<u8>)
    ensures
        final(out)@ == old(out)@ + data_directories_part4_bytes(),
{
    put32(out, 0x5048);
    put32(out, 0x20);
    put32(out, 0x0);
    put32(out, 0x0);
    put32(out, 0x0);
    put32(out, 0x0);
    put32(out, 0x0);
    put32(out, 0x0);
    assert(out@ =~= old(out)@ + data_directories_part4_bytes());
}

/// The sixteen data directories: the import table at 0x5000 (160 bytes) and the import address table at 0x5048 (32 bytes).
pub open spec fn data_directories_bytes() -> Seq<u8> {
    data_directories_part1_bytes() + data_directories_part2_bytes() + data_directories_part3_bytes() + data_directories_part4_bytes()
}

fn write_data_directories(out: &mut Vec<u8>)
    ensures
        final(out)@ == old(out)@ + data_directories_bytes(),
{
    write_data_directories_part1(out);
    write_data_directories_part2(out);
    write_data_directories_part3(out);
    write_data_directories_part4(out);
    assert(out@ =~= old(out)@ + data_directories_bytes());
}

/// Part 1 of section table.
pub open spec fn section_table_part1_bytes() -> Seq<u8> {
    seq![0x2Eu8, 0x74u8, 0x65u8, 0x78u8, 0x74u8, 0x00u8, 0x00u8, 0x00u8]
        + le32(0x4000)
        + le32(0x1000)
        + le32(0x200)
        + le32(0x400)
        + le32(0x0)
        + le32(0x0)
        + le16(0x0)
}

fn write_section_table_part1(out: &mut Vec<u8>)
    ensures
        final(out)@ == old(out)@ + section_table_part1_bytes(),
{
    put_bytes(out, vec![0x2Eu8, 0x74u8, 0x65u8, 0x78u8, 0x74u8, 0x00u8, 0x00u8, 0x00u8]);
    put32(out, 0x4000);
    put32(out, 0x1000);
    put32(out, 0x200);
    put32(out, 0x400);
    put32(out, 0x0);
    put32(out, 0x0);
    put16(out, 0x0);
    assert(out@ =~= old(out)@ + section_table_part1_bytes());
}

/// Part 2 of section table.
pub open spec fn section_table_part2_bytes() -> Seq<u8> {
    le16(0x0)
        + le32(0x60000020)
        + seq![0x2Eu8, 0x69u8, 0x64u8, 0x61u8, 0x74u8, 0x61u8, 0x00u8, 0x00u8]
        + le32(0xA0)
        + le32(0x5000)
        + le32(0x200)
        + le32(0x600)
        + le32(0x0)
}

fn write_section_table_part2(out: &mut Vec<u8>)
    ensures
        final(out)@ == old(out)@ + section_table_part2_bytes(),
{
    put16(out, 0x0);
    put32(out, 0x60000020);
    put_bytes(out, vec![0x2Eu8, 0x69u8, 0x64u8, 0x61u8, 0x74u8, 0x61u8, 0x00u8, 0x00u8]);
    put32(out, 0xA0);
    put32(out, 0x5000);
    put32(out, 0x200);
    put32(out, 0x600);
    put32(out, 0x0);
    assert(out@ =~= old(out)@ + section_table_part2_bytes());
}

/// Part 3 of section table.
pub open spec fn section_table_part3_bytes() -> Seq<u8> {
    le32(0x0)
        + le16(0x0)
        + le16(0x0)
        + le32(0x40000040)
}

fn write_section_table_part3(out: &mut Vec<u8>)
    ensures
        final(out)@ == old(out)@ + section_table_part3_bytes(),
{
    put32(out, 0x0);
    put16(out, 0x0);
    put16(out, 0x0);
    put32(out, 0x40000040);
    assert(out@ =~= old(out)@ + section_table_part3_bytes());
}

/// The section headers: `.text` at 0x1000 (file offset 0x400) and `.idata` at 0x5000 (file offset 0x600).
pub open spec fn section_table_bytes() -> Seq<u8> {
    section_table_part1_bytes() + section_table_part2_bytes() + section_table_part3_bytes()
}

fn write_section_table(out: &mut Vec<u8>)
    ensures
        final(out)@ == old(out)@ + section_table_bytes(),
{
    write_section_table_part1(out);
    write_section_table_part2(out);
    write_section_table_part3(out);
    assert(out@ =~= old(out)@ + section_table_bytes());
}

/// Part 1 of import section.
pub open spec fn import_section_part1_bytes() -> Seq<u8> {
    le32(0x5028)
        + le32(0x0)
        + le32(0x0)
        + le32(0x5092)
        + le32(0x5048)
        + le32(0x0)
        + le32(0x0)
        + le32(0x0)
}

fn write_import_section_part1(out: &mut Vec<u8>)
    ensures
        final(out)@ == old(out)@ + import_section_part1_bytes(),
{
    put32(out, 0x5028);
    put32(out, 0x0);
    put32(out, 0x0);
    put32(out, 0x5092);
    put32(out, 0x5048);
    put32(out, 0x0);
    put32(out, 0x0);
    put32(out, 0x0);
    assert(out@ =~= old(out)@ + import_section_part1_bytes());
}

/// Part 2 of import section.
pub open spec fn import_section_part2_bytes() -> Seq<u8> {
    le32(0x0)
        + le32(0x0)
        + le64(0x5068)
        + le64(0x5076)
        + le64(0x5086)
        + le64(0x0)
        + le64(0x5068)
        + le64(0x5076)
}

fn write_import_section_part2(out: &mut Vec<u8>)
    ensures
        final(out)@ == old(out)@ + import_section_part2_bytes(),
{
    put32(out, 0x0);
    put32(out, 0x0);
    put64(out, 0x5068);
    put64(out, 0x5076);
    put64(out, 0x5086);
    put64(out, 0x0);
    put64(out, 0x5068);
    put64(out, 0x5076);
    assert(out@ =~= old(out)@ + import_section_part2_bytes());
}

/// Part 3 of import section.
pub open spec fn import_section_part3_bytes() -> Seq<u8> {
    le64(0x5086)
        + le64(0x0)
        + le16(0x17C)
        + seq![0x45u8, 0x78u8, 0x69u8, 0x74u8, 0x50u8, 0x72u8, 0x6Fu8, 0x63u8, 0x65u8, 0x73u8, 0x73u8, 0x00u8]
        + le16(0x17C)
        + seq![0x47u8, 0x65u8, 0x74u8, 0x53u8, 0x74u8, 0x64u8, 0x48u8, 0x61u8, 0x6Eu8, 0x64u8, 0x6Cu8, 0x65u8, 0x00u8, 0x00u8]
        + le16(0x17C)
        + seq![0x57u8, 0x72u8, 0x69u8, 0x74u8, 0x65u8, 0x46u8, 0x69u8, 0x6Cu8, 0x65u8, 0x00u8]
}

fn write_import_section_part3(out: &mut Vec<u8>)
    ensures
        final(out)@ == old(out)@ + import_section_part3_bytes(),
{
    put64(out, 0x5086);
    put64(out, 0x0);
    put16(out, 0x17C);
    put_bytes(out, vec![0x45u8, 0x78u8, 0x69u8, 0x74u8, 0x50u8, 0x72u8, 0x6Fu8, 0x63u8, 0x65u8, 0x73u8, 0x73u8, 0x00u8]);
    put16(out, 0x17C);
    put_bytes(out, vec![0x47u8, 0x65u8, 0x74u8, 0x53u8, 0x74u8, 0x64u8, 0x48u8, 0x61u8, 0x6Eu8, 0x64u8, 0x6Cu8, 0x65u8, 0x00u8, 0x00u8]);
    put16(out, 0x17C);
    put_bytes(out, vec![0x57u8, 0x72u8, 0x69u8, 0x74u8, 0x65u8, 0x46u8, 0x69u8, 0x6Cu8, 0x65u8, 0x00u8]);
    assert(out@ =~= old(out)@ + import_section_part3_bytes());
}

/// Part 4 of import section.
pub open spec fn import_section_part4_bytes() -> Seq<u8> {
    seq![0x4Bu8, 0x45u8, 0x52u8, 0x4Eu8, 0x45u8, 0x4Cu8, 0x33u8, 0x32u8, 0x2Eu8, 0x64u8, 0x6Cu8, 0x6Cu8, 0x00u8, 0x00u8]
}

fn write_import_section_part4(out: &mut Vec<u8>)
    ensures
        final(out)@ == old(out)@ + import_section_part4_bytes(),
{
    put_bytes(out, vec![0x4Bu8, 0x45u8, 0x52u8, 0x4Eu8, 0x45u8, 0x4Cu8, 0x33u8, 0x32u8, 0x2Eu8, 0x64u8, 0x6Cu8, 0x6Cu8, 0x00u8, 0x00u8]);
    assert(out@ =~= old(out)@ + import_section_part4_bytes());
}

/// The import section: one import directory entry for KERNEL32.dll and its terminator, the lookup and address tables of ExitProcess, GetStdHandle and WriteFile, their hint/name entries and the DLL name.
pub open spec fn import_section_bytes() -> Seq<u8> {
    import_section_part1_bytes() + import_section_part2_bytes() + import_section_part3_bytes() + import_section_part4_bytes()
}

fn write_import_section(out: &mut Vec<u8>)
    ensures
        final(out)@ == old(out)@ + import_section_bytes(),
{
    write_import_section_part1(out);
    write_import_section_part2(out);
    write_import_section_part3(out);
    write_import_section_part4(out);
    assert(out@ =~= old(out)@ + import_section_bytes());
}

/// The headers of the image, padded to 1024 bytes: DOS header and stub, PE signature,
/// COFF header, optional header, data directories and section table.
pub open spec fn pe_headers() -> Seq<u8> {
    dos_header_bytes() + coff_header_bytes() + optional_header_bytes() + data_directories_bytes() + section_table_bytes() + zeros(552)
}

/// Where the loader puts the address of an imported function: its slot in the import
/// address table.
pub open spec fn import_slot(name: Seq<char>) -> Option<u32> {
    if name == "ExitProcess"@ {
        Some(0x5048u32)
    } else if name == "GetStdHandle"@ {
        Some(0x5050u32)
    } else if name == "WriteFile"@ {
        Some(0x5058u32)
    } else {
        None
    }
}

/// The code with the address of each call of an imported function filled in with the
/// position of its slot relative to the code section; none where a function is not
/// imported or an address would lie beyond the largest position.
pub open spec fn linked(code: Seq<u8>, calls: Seq<(Seq<char>, nat)>) -> Option<Seq<u8>>
    decreases calls.len(),
{
    if calls.len() == 0 {
        Some(code)
    } else {
        match linked(code, calls.drop_last()) {
            None => None,
            Some(c) => {
                let (name, at) = calls.last();
                match import_slot(name) {
                    None => None,
                    Some(slot) => if at + 4 > usize::MAX {
                        None
                    } else {
                        Some(written_at(c, at as int, le32((slot - 0x1000) as u32)))
                    },
                }
            },
        }
    }
}

/// The executable image of machine code: the headers, the linked code padded to the
/// 512 bytes of the code section, and the import section padded to 512 bytes; none where
/// linking fails or the code does not fit its section.
pub open spec fn image_of(code: Seq<u8>, calls: Seq<(Seq<char>, nat)>) -> Option<Seq<u8>> {
    match linked(code, calls) {
        None => None,
        Some(c) => if c.len() > 512 {
            None
        } else {
            Some(pe_headers() + c + zeros((512 - c.len()) as nat) + import_section_bytes() + zeros(352))
        },
    }
}

fn slot_of(name: &String) -> (r: Option<u32>)
    ensures
        r == import_slot(name@),
{
    if crate::defaultfunctions::str_equal(name.as_str(), "ExitProcess") {
        Some(0x5048)
    } else if crate::defaultfunctions::str_equal(name.as_str(), "GetStdHandle") {
        Some(0x5050)
    } else if crate::defaultfunctions::str_equal(name.as_str(), "WriteFile") {
        Some(0x5058)
    } else {
        None
    }
}

proof fn lemma_linked_none(code: Seq<u8>, calls: Seq<(Seq<char>, nat)>, k: int)
    requires
        0 <= k <= calls.len(),
        linked(code, calls.subrange(0, k)) is None,
    ensures
        linked(code, calls) is None,
    decreases calls.len() - k,
{
    if k < calls.len() {
        assert(calls.drop_last().subrange(0, k) =~= calls.subrange(0, k));
        lemma_linked_none(code, calls.drop_last(), k);
    } else {
        assert(calls.subrange(0, k) =~= calls);
    }
}

/// The executable image of machine code whose calls of imported functions are still to
/// be linked: 1024 bytes of headers, the code section of 512 bytes with each call's
/// address filled in, and the import section of KERNEL32.dll's ExitProcess, GetStdHandle
/// and WriteFile, padded to 512 bytes. An error where a called function is not imported
/// or the code does not fit its section.
pub fn exe_image(machine_code: Vec<u8>, syscalls_to_resolve: &Vec<(String, usize)>) -> (r: Result<Vec<u8>, Error>)
    ensures
        match image_of(machine_code@, pairs_view(syscalls_to_resolve@)) {
            None => r matches Err(e) && e is SimpleError,
            Some(img) => r matches Ok(v) && v@ == img,
        },
{
    let ghost cv = pairs_view(syscalls_to_resolve@);
    let mut code = machine_code;
    let mut k: usize = 0;
    while k < syscalls_to_resolve.len()
        invariant
            k <= syscalls_to_resolve@.len(),
            cv == pairs_view(syscalls_to_resolve@),
            linked(machine_code@, cv.subrange(0, k as int)) == Some(code@),
        decreases syscalls_to_resolve@.len() - k,
    {
        assert(cv.subrange(0, k + 1).drop_last() =~= cv.subrange(0, k as int));
        assert(cv.subrange(0, k + 1).last() == (syscalls_to_resolve@[k as int].0@, syscalls_to_resolve@[k as int].1 as nat));
        let at = syscalls_to_resolve[k].1;
        let slot = match slot_of(&syscalls_to_resolve[k].0) {
            Some(x) => x,
            None => {
                proof { lemma_linked_none(machine_code@, cv, k + 1); }
                let m = crate::text::concat("Could not find syscall ", syscalls_to_resolve[k].0.as_str());
                return Err(Error::SimpleError { message: m });
            },
        };
        if at > usize::MAX - 4 {
            proof { lemma_linked_none(machine_code@, cv, k + 1); }
            return Err(Error::SimpleError { message: String::from_str("Call address out of range") });
        }
        let bytes = vec![((slot - 0x1000) % 256) as u8, (((slot - 0x1000) / 256) % 256) as u8, (((slot - 0x1000) / 65536) % 256) as u8, (((slot - 0x1000) / 16777216) % 256) as u8];
        assert(bytes@ =~= le32((slot - 0x1000) as u32));
        let sl = bytes.as_slice();
        write_at_bytes(&mut code, at, sl);
        k = k + 1;
    }
    assert(cv.subrange(0, syscalls_to_resolve@.len() as int) =~= cv);
    if code.len() > 512 {
        return Err(Error::SimpleError { message: String::from_str("Machine code does not fit in the code section") });
    }
    let mut image: Vec<u8> = Vec::new();
    write_dos_header(&mut image);
    write_coff_header(&mut image);
    write_optional_header(&mut image);
    write_data_directories(&mut image);
    write_section_table(&mut image);
    put_zeros(&mut image, 552);
    let ghost headers = image@;
    assert(headers =~= pe_headers());
    let pad = 512 - code.len();
    let mut k2: usize = 0;
    while k2 < code.len()
        invariant
            k2 <= code@.len(),
            image@ == headers + code@.subrange(0, k2 as int),
        decreases code@.len() - k2,
    {
        image.push(code[k2]);
        assert(headers + code@.subrange(0, k2 + 1) =~= headers + code@.subrange(0, k2 as int) + seq![code@[k2 as int]]);
        k2 = k2 + 1;
    }
    assert(code@.subrange(0, code@.len() as int) =~= code@);
    put_zeros(&mut image, pad);
    write_import_section(&mut image);
    put_zeros(&mut image, 352);
    assert(image@ =~= pe_headers() + code@ + zeros(pad as nat) + import_section_bytes() + zeros(352));
    Ok(image)
}

/// A read gives back what a write wrote: after writing `data` from `at`, the bytes
/// from `at` are `data`, every other byte of the buffer is as it was, and the buffer is
/// as long as it was or as the end of the data, whichever is more.
pub proof fn lemma_written_at(buf: Seq<u8>, at: int, data: Seq<u8>)
    requires
        0 <= at,
    ensures
        written_at(buf, at, data).subrange(at, at + data.len()) == data,
        forall|i: int| 0 <= i < buf.len() && !(at <= i < at + data.len()) ==> #[trigger] written_at(buf, at, data)[i] == buf[i],
        written_at(buf, at, data).len() == (if buf.len() < at + data.len() { at + data.len() } else { buf.len() as int }),
{
    assert(written_at(buf, at, data).subrange(at, at + data.len()) =~= data);
}

proof fn lemma_section_lengths()
    ensures
        pe_headers().len() == 1024,
        import_section_bytes().len() == 160,
{
    assert(dos_header_bytes().len() == 128) by {
        assert(dos_header_part1_bytes().len() == 16);
        assert(dos_header_part2_bytes().len() == 16);
        assert(dos_header_part3_bytes().len() == 16);
        assert(dos_header_part4_bytes().len() == 32);
        assert(dos_header_part5_bytes().len() == 48);
    }
    assert(coff_header_bytes().len() == 24);
    assert(optional_header_bytes().len() == 112) by {
        assert(optional_header_part1_bytes().len() == 24);
        assert(optional_header_part2_bytes().len() == 26);
        assert(optional_header_part3_bytes().len() == 30);
        assert(optional_header_part4_bytes().len() == 32);
    }
    assert(data_directories_bytes().len() == 128) by {
        assert(data_directories_part1_bytes().len() == 32);
        assert(data_directories_part2_bytes().len() == 32);
        assert(data_directories_part3_bytes().len() == 32);
        assert(data_directories_part4_bytes().len() == 32);
    }
    assert(section_table_bytes().len() == 80) by {
        assert(section_table_part1_bytes().len() == 34);
        assert(section_table_part2_bytes().len() == 34);
        assert(section_table_part3_bytes().len() == 12);
    }
    assert(import_section_bytes().len() == 160) by {
        assert(import_section_part1_bytes().len() == 32);
        assert(import_section_part2_bytes().len() == 56);
        assert(import_section_part3_bytes().len() == 58);
        assert(import_section_part4_bytes().len() == 14);
    }
}

/// The layout of an image: 2048 bytes, the headers first, then the linked code from
/// byte 1024, zeros up to byte 1536, then the import section and zeros to the end.
pub proof fn lemma_image_layout(code: Seq<u8>, calls: Seq<(Seq<char>, nat)>)
    requires
        image_of(code, calls) is Some,
    ensures
        image_of(code, calls).unwrap().len() == 2048,
        image_of(code, calls).unwrap().subrange(0, 1024) == pe_headers(),
        image_of(code, calls).unwrap().subrange(1024, 1024 + linked(code, calls).unwrap().len() as int) == linked(code, calls).unwrap(),
        image_of(code, calls).unwrap().subrange(1536, 1696) == import_section_bytes(),
{
    let c = linked(code, calls).unwrap();
    let img = image_of(code, calls).unwrap();
    lemma_section_lengths();
    assert(img.subrange(0, 1024) =~= pe_headers());
    assert(img.subrange(1024, 1024 + c.len() as int) =~= c);
    assert(img.subrange(1536, 1696) =~= import_section_bytes());
}

} // verus!
