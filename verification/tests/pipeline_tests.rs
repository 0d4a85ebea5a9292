use hgecko::codes::sort_by_addr;
use hgecko::encode::{codes_encodable, encode_codes};
use hgecko::extract::{extract_object, undefined_name_offsets, ExtractError, SymbolInfo};
use hgecko::header::HeaderError;
use hgecko::pipeline::{process_asm, SourceError, SourceOutcome};

/// Build a minimal big-endian ELF32 relocatable object with five sections:
/// null, a code section, the symbol table, its string table, and the section
/// name table. `syms` are the non-null symbol entries as (st_name, st_shndx).
fn make_object(
    text: &[u8],
    syms: &[(u32, u16)],
    strtab: &[u8],
    symtab_type: u32,
    text_section_name: &[u8; 5],
    text_flags: u32,
) -> Vec<u8> {
    let mut shstrtab = Vec::new();
    shstrtab.push(0u8);
    shstrtab.extend_from_slice(text_section_name); // offset 1
    shstrtab.push(0);
    shstrtab.extend_from_slice(b".symtab\0"); // offset 7
    shstrtab.extend_from_slice(b".strtab\0"); // offset 15
    shstrtab.extend_from_slice(b".shstrtab\0"); // offset 23

    let text_off = 52u32;
    let symtab_off = text_off + text.len() as u32;
    let symtab_len = 16 * (1 + syms.len() as u32);
    let strtab_off = symtab_off + symtab_len;
    let shstrtab_off = strtab_off + strtab.len() as u32;
    let shoff = shstrtab_off + shstrtab.len() as u32;

    let mut f = Vec::new();
    // e_ident
    f.extend_from_slice(&[0x7F, b'E', b'L', b'F', 1, 2, 1, 0, 0, 0, 0, 0, 0, 0, 0, 0]);
    f.extend_from_slice(&1u16.to_be_bytes()); // e_type: ET_REL
    f.extend_from_slice(&20u16.to_be_bytes()); // e_machine: EM_PPC
    f.extend_from_slice(&1u32.to_be_bytes()); // e_version
    f.extend_from_slice(&0u32.to_be_bytes()); // e_entry
    f.extend_from_slice(&0u32.to_be_bytes()); // e_phoff
    f.extend_from_slice(&shoff.to_be_bytes()); // e_shoff
    f.extend_from_slice(&0u32.to_be_bytes()); // e_flags
    f.extend_from_slice(&52u16.to_be_bytes()); // e_ehsize
    f.extend_from_slice(&0u16.to_be_bytes()); // e_phentsize
    f.extend_from_slice(&0u16.to_be_bytes()); // e_phnum
    f.extend_from_slice(&40u16.to_be_bytes()); // e_shentsize
    f.extend_from_slice(&5u16.to_be_bytes()); // e_shnum
    f.extend_from_slice(&4u16.to_be_bytes()); // e_shstrndx
    assert_eq!(f.len(), 52);

    f.extend_from_slice(text);
    // null symbol entry
    f.extend_from_slice(&[0u8; 16]);
    for (st_name, st_shndx) in syms {
        f.extend_from_slice(&st_name.to_be_bytes());
        f.extend_from_slice(&0u32.to_be_bytes()); // st_value
        f.extend_from_slice(&0u32.to_be_bytes()); // st_size
        f.push(0); // st_info
        f.push(0); // st_other
        f.extend_from_slice(&st_shndx.to_be_bytes());
    }
    f.extend_from_slice(strtab);
    f.extend_from_slice(&shstrtab);

    let mut shdr = |name: u32, ty: u32, flags: u32, off: u32, size: u32, link: u32, entsize: u32| {
        f.extend_from_slice(&name.to_be_bytes());
        f.extend_from_slice(&ty.to_be_bytes());
        f.extend_from_slice(&flags.to_be_bytes());
        f.extend_from_slice(&0u32.to_be_bytes()); // sh_addr
        f.extend_from_slice(&off.to_be_bytes());
        f.extend_from_slice(&size.to_be_bytes());
        f.extend_from_slice(&link.to_be_bytes());
        f.extend_from_slice(&0u32.to_be_bytes()); // sh_info
        f.extend_from_slice(&0u32.to_be_bytes()); // sh_addralign
        f.extend_from_slice(&entsize.to_be_bytes());
    };
    shdr(0, 0, 0, 0, 0, 0, 0); // null
    shdr(1, 1, text_flags, text_off, text.len() as u32, 0, 0); // code section
    shdr(7, symtab_type, 0, symtab_off, symtab_len, 3, 16); // .symtab
    shdr(15, 3, 0, strtab_off, strtab.len() as u32, 0, 0); // .strtab
    shdr(23, 3, 0, shstrtab_off, shstrtab.len() as u32, 0, 0); // .shstrtab
    f
}

fn plain_object(text: &[u8]) -> Vec<u8> {
    make_object(text, &[(0, 1)], b"\0", 2, b".text", 6)
}

fn source(header: &[u8], object: Option<Vec<u8>>) -> SourceOutcome {
    SourceOutcome {
        header: header.to_vec(),
        last_byte: if header.is_empty() { 0 } else { header[header.len() - 1] },
        object,
    }
}

#[test]
fn extracts_text_bytes_verbatim() {
    let obj = plain_object(&[0x38, 0x60, 0x00, 0x01]);
    let ex = extract_object(&obj).unwrap();
    assert_eq!(ex.code, vec![0x38, 0x60, 0x00, 0x01]);
    assert!(ex.undefined.is_empty());
}

#[test]
fn empty_text_section_is_kept() {
    let obj = plain_object(&[]);
    let ex = extract_object(&obj).unwrap();
    assert!(ex.code.is_empty());
}

#[test]
fn undefined_symbols_are_named_and_deduplicated() {
    // two references to `foo`, one to `bar`, one unnamed undefined symbol
    let obj = make_object(
        &[0, 0, 0, 0],
        &[(1, 0), (5, 0), (1, 0), (0, 0), (9, 1)],
        b"\0foo\0bar\0defined\0",
        2,
        b".text",
        6,
    );
    let ex = extract_object(&obj).unwrap();
    assert_eq!(
        ex.undefined,
        vec!["(unnamed symbol)".to_string(), "foo".to_string(), "bar".to_string()]
    );
}

#[test]
fn garbage_is_a_parse_error() {
    let obj = vec![1, 2, 3, 4, 5, 6, 7, 8];
    assert!(matches!(
        extract_object(&obj),
        Err(ExtractError::ObjectParseError(_))
    ));
}

#[test]
fn missing_symbol_table_is_reported() {
    let obj = make_object(&[0, 0, 0, 0], &[], b"\0", 1, b".text", 6);
    assert!(matches!(
        extract_object(&obj),
        Err(ExtractError::MissingSymbolTable)
    ));
}

#[test]
fn missing_text_section_is_reported() {
    let obj = make_object(&[0, 0, 0, 0], &[], b"\0", 2, b".data", 6);
    assert!(matches!(
        extract_object(&obj),
        Err(ExtractError::MissingTextSection)
    ));
}

#[test]
fn compressed_text_section_is_refused() {
    // SHF_COMPRESSED (0x800); the section data starts with an ELF32
    // compression header (type 1 = zlib, size, alignment)
    let mut text = Vec::new();
    text.extend_from_slice(&1u32.to_be_bytes());
    text.extend_from_slice(&4u32.to_be_bytes());
    text.extend_from_slice(&4u32.to_be_bytes());
    text.extend_from_slice(&[0xAA, 0xBB, 0xCC, 0xDD]);
    let obj = make_object(&text, &[], b"\0", 2, b".text", 6 | 0x800);
    assert!(matches!(
        extract_object(&obj),
        Err(ExtractError::UnsupportedCompression)
    ));
}

#[test]
fn offsets_of_undefined_symbols_are_sorted_unique() {
    let syms = vec![
        SymbolInfo { st_name: 7, st_shndx: 9 }, // null entry slot: skipped anyway
        SymbolInfo { st_name: 30, st_shndx: 0 },
        SymbolInfo { st_name: 10, st_shndx: 0 },
        SymbolInfo { st_name: 30, st_shndx: 0 },
        SymbolInfo { st_name: 20, st_shndx: 1 },
    ];
    assert_eq!(undefined_name_offsets(&syms), vec![10, 30]);
}

#[test]
fn header_errors_abort_the_batch() {
    let sources = vec![
        source(b"; 80001234\n", Some(plain_object(&[0, 0, 0, 0]))),
        source(b"; no token\n", Some(plain_object(&[0, 0, 0, 0]))),
        source(b"; 80005678 no newline", Some(plain_object(&[0, 0, 0, 0]))),
    ];
    let out = process_asm(&sources);
    assert!(out.codes.is_empty());
    assert_eq!(out.errors.len(), 2);
    assert!(out.errors.iter().any(|e| e.index == 1
        && matches!(e.error, SourceError::Header(HeaderError::MissingAddress))));
    assert!(out.errors.iter().any(|e| e.index == 2
        && matches!(e.error, SourceError::Header(HeaderError::NotNewlineTerminated))));
}

#[test]
fn failed_compile_is_reported_per_file() {
    let sources = vec![
        source(b"; 80001234\n", Some(plain_object(&[1, 2, 3, 4]))),
        source(b"; 80005678\n", None),
    ];
    let out = process_asm(&sources);
    assert_eq!(out.codes.len(), 2);
    assert_eq!(out.errors.len(), 1);
    assert_eq!(out.errors[0].index, 1);
    assert!(matches!(out.errors[0].error, SourceError::CompileFailed));
}

#[test]
fn bad_object_is_reported_per_file() {
    let sources = vec![source(b"; 80001234\n", Some(vec![0xFF; 20]))];
    let out = process_asm(&sources);
    assert_eq!(out.errors.len(), 1);
    assert!(matches!(
        out.errors[0].error,
        SourceError::Extract(ExtractError::ObjectParseError(_))
    ));
}

#[test]
fn end_to_end_three_sources() {
    let eight = [0x38, 0x60, 0x00, 0x01, 0x38, 0x80, 0x00, 0x02];
    let sources = vec![
        source(b"; 80001234\nli r3, 1\n", Some(plain_object(&[0x38, 0x60, 0x00, 0x01]))),
        source(b"; 80000100\n", Some(plain_object(&eight))),
        source(b"; 80005555\n", Some(plain_object(&[]))),
    ];
    let out = process_asm(&sources);
    assert!(out.errors.is_empty());
    assert_eq!(out.codes.len(), 3);
    assert_eq!(out.empty_sources, vec![2]);
    assert!(out.undefined.is_empty());

    let sorted = sort_by_addr(out.codes);
    assert!(codes_encodable(&sorted));
    let bytes = encode_codes(&sorted);

    let mut expected = Vec::new();
    expected.extend_from_slice(&[0x00, 0xD0, 0xC0, 0xDE, 0x00, 0xD0, 0xC0, 0xDE]);
    // 0x80000100, two words
    expected.extend_from_slice(&[0xC2, 0x00, 0x01, 0x00]);
    expected.extend_from_slice(&[0x00, 0x00, 0x00, 0x02]);
    expected.extend_from_slice(&eight);
    expected.extend_from_slice(&[0x60, 0x00, 0x00, 0x00]);
    expected.extend_from_slice(&[0x00, 0x00, 0x00, 0x00]);
    // 0x80001234, single word
    expected.extend_from_slice(&[0x04, 0x00, 0x12, 0x34]);
    expected.extend_from_slice(&[0x38, 0x60, 0x00, 0x01]);
    expected.extend_from_slice(&[0xF0, 0x00, 0x00, 0x00, 0x00, 0x00, 0x00, 0x00]);
    assert_eq!(bytes, expected);
}
