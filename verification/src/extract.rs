//! Object Extractor: open a compiled object as a big-endian ELF, report its
//! undefined symbols, and extract the raw bytes of its `.text` section.
//!
//! The ELF reading itself is done by the `elf` crate behind trusted wrappers;
//! everything that decides — which symbols count as undefined, how duplicates
//! are dropped, which error a failed step maps to — is verified here.

use vstd::prelude::*;

verus! {

/// Why extraction from a compiled object failed.
#[derive(Debug)]
pub enum ExtractError {
    /// The object exposes no symbol table with its string table.
    MissingSymbolTable,
    /// The object has no section named `.text`.
    MissingTextSection,
    /// The `.text` section is compressed, which this toolchain never emits.
    UnsupportedCompression,
    /// The object could not be parsed; carries the parser's message.
    ObjectParseError(String),
}

/// What extraction returns on success: the verbatim bytes of `.text` (may be
/// empty when the source produced no code) and one display name per unique
/// undefined symbol.
pub struct Extraction {
    pub code: Vec<u8>,
    pub undefined: Vec<String>,
}

/// The two fields of an ELF symbol entry that the extractor reads: the
/// offset of its name in the string table and its defining section index.
#[derive(Clone, Copy, PartialEq, Eq, Structural, Debug)]
pub struct SymbolInfo {
    pub st_name: u32,
    pub st_shndx: u16,
}

/// A symbol entry is undefined when its section index is `SHN_UNDEF` (zero).
/// The first table entry is the conventional null entry and never counts.
pub open spec fn undef_offset_in(s: Seq<SymbolInfo>, v: u32) -> bool {
    exists|j: int| 1 <= j < s.len() && (#[trigger] s[j]).st_shndx == 0 && s[j].st_name == v
}

// Every `elf` call below is a pure function of the object bytes alone, so
// its result gets a name: an uninterpreted spec function that the trusted
// wrappers' contracts apply and the verified extractor is proved against.
// Nothing states what a name is on given bytes; the wrappers alone relate
// the names to the `elf` crate's answers.
//
/// Whether `elf::ElfBytes::minimal_parse` accepts the bytes as a big-endian
/// ELF object.
pub uninterp spec fn parse_ok(data: Seq<u8>) -> bool;

/// The object bytes a parsed `ElfObject` handle was built from.
pub uninterp spec fn object_bytes(e: ElfObject) -> Seq<u8>;

/// What `elf::ElfBytes::symbol_table` answers on an object: `None` when the
/// lookup itself fails, otherwise whether a symbol table is present.
pub uninterp spec fn symtab_found(data: Seq<u8>) -> Option<bool>;

/// The object's symbol entries, in table order, reduced to the two fields
/// the extractor reads.
pub uninterp spec fn symtab_of(data: Seq<u8>) -> Seq<SymbolInfo>;

/// What a `SymTable` handle holds: the entries its iterator yields.
pub uninterp spec fn table_entries(st: SymTable) -> Seq<SymbolInfo>;

/// The object bytes a `StrTable` handle was taken from.
pub uninterp spec fn strtab_source(st: StrTable) -> Seq<u8>;

/// What `elf::string_table::StringTable::get` answers at an offset into the
/// object's string table: the name, or `None` when the offset is out of
/// bounds or the bytes are not valid UTF-8.
pub uninterp spec fn name_at(data: Seq<u8>, offset: int) -> Option<Seq<char>>;

/// The object bytes a `SectionHeader` was looked up in.
pub uninterp spec fn header_source(h: elf::section::SectionHeader) -> Seq<u8>;

/// The section name a `SectionHeader` was looked up under.
pub uninterp spec fn header_name(h: elf::section::SectionHeader) -> Seq<char>;

/// What `elf::ElfBytes::section_header_by_name` answers: `None` when the
/// section-header walk fails, otherwise whether a section of that name
/// exists.
pub uninterp spec fn section_found(data: Seq<u8>, name: Seq<char>) -> Option<bool>;

/// What `elf::ElfBytes::section_data` answers for the section found under
/// `name`: its raw bytes and whether it carries a compression header, or
/// `None` when reading it fails.
pub uninterp spec fn section_content(data: Seq<u8>, name: Seq<char>) -> Option<(Seq<u8>, bool)>;

/// The name of the section whose bytes become a record's code.
pub open spec fn text_section_name() -> Seq<char> {
    ".text"@
}

/// The extractor succeeds on exactly these objects: they parse, a symbol
/// table is present, a `.text` section exists, and it is not compressed.
pub open spec fn extraction_ok(d: Seq<u8>) -> bool {
    &&& parse_ok(d)
    &&& symtab_found(d) == Some(true)
    &&& section_found(d, text_section_name()) == Some(true)
    &&& match section_content(d, text_section_name()) {
        Some(c) => c.1 == false,
        None => false,
    }
}

/// The code bytes extraction returns: the `.text` section's, verbatim.
pub open spec fn extracted_code(d: Seq<u8>) -> Seq<u8> {
    section_content(d, text_section_name())->Some_0.0
}

/// Which extraction error an object's contents owe. The parse-error arm
/// covers every failure of the `elf` crate's own reading, at whichever
/// stage; the other arms say exactly which well-formed-but-incomplete
/// objects produce them.
pub open spec fn extract_err_matches(d: Seq<u8>, x: ExtractError) -> bool {
    match x {
        ExtractError::MissingSymbolTable => parse_ok(d) && symtab_found(d) == Some(false),
        ExtractError::MissingTextSection => parse_ok(d) && symtab_found(d) == Some(true)
            && section_found(d, text_section_name()) == Some(false),
        ExtractError::UnsupportedCompression => parse_ok(d) && symtab_found(d) == Some(true)
            && section_found(d, text_section_name()) == Some(true) && (section_content(
            d,
            text_section_name(),
        ) matches Some(c) && c.1 == true),
        ExtractError::ObjectParseError(_) => {
            ||| !parse_ok(d)
            ||| symtab_found(d) is None
            ||| section_found(d, text_section_name()) is None
            ||| section_content(d, text_section_name()) is None
        },
    }
}

/// Law: the error conditions exclude success — an object that owes any
/// extraction error is not one extraction succeeds on, so a recorded
/// extraction issue and a clean extraction can never name the same object.
pub proof fn lemma_extract_err_excludes_ok(d: Seq<u8>, x: ExtractError)
    requires
        extract_err_matches(d, x),
    ensures
        !extraction_ok(d),
{
}

/// The sorted, duplicate-free offsets of the object's undefined symbols.
pub open spec fn sorted_unique_undef(d: Seq<u8>, offs: Seq<u32>) -> bool {
    &&& (forall|a: int, b: int| 0 <= a < b < offs.len() ==> offs[a] < offs[b])
    &&& (forall|v: u32| #[trigger] offs.contains(v) <==> undef_offset_in(symtab_of(d), v))
}

/// The display name for a symbol: its string-table entry, with the fixed
/// label standing in for an empty or unreadable name.
pub open spec fn display_name(n: Option<Seq<char>>) -> Seq<char> {
    match n {
        Some(s) => if s.len() == 0 {
            "(unnamed symbol)"@
        } else {
            s
        },
        None => "(unnamed symbol)"@,
    }
}

/// The undefined-symbol warning list is correct for an object: one display
/// name per unique undefined offset, in ascending offset order.
pub open spec fn undefined_names_ok(d: Seq<u8>, names: Seq<String>) -> bool {
    exists|offs: Seq<u32>|
        {
            &&& #[trigger] sorted_unique_undef(d, offs)
            &&& names.len() == offs.len()
            &&& forall|i: int|
                0 <= i < offs.len() ==> (#[trigger] names[i])@ == display_name(
                    name_at(d, offs[i] as int),
                )
        }
}

#[verifier::external_type_specification]
#[verifier::external_body]
pub struct ExParseError(elf::ParseError);

#[verifier::external_type_specification]
#[verifier::external_body]
pub struct ExSectionHeader(elf::section::SectionHeader);

/// A parsed big-endian ELF object of the `elf` crate, held opaquely:
/// `elf::ElfBytes`' own generics cannot be declared here, so the handle
/// lives in a hidden field and is reached only through the wrappers below.
#[verifier::external_body]
pub struct ElfObject<'data> {
    inner: elf::ElfBytes<'data, elf::endian::BigEndian>,
}

/// The object's symbol table (`elf::symbol::SymbolTable`), held opaquely.
#[verifier::external_body]
pub struct SymTable<'data> {
    inner: elf::symbol::SymbolTable<'data, elf::endian::BigEndian>,
}

/// The object's string table (`elf::string_table::StringTable`), held
/// opaquely.
#[verifier::external_body]
pub struct StrTable<'data> {
    inner: elf::string_table::StringTable<'data>,
}

/// Relies on `elf::ElfBytes::minimal_parse`: parses the ELF file header of a
/// big-endian object and locates its section header table. The parse is a
/// pure function of the bytes, and the handle stands for exactly them.
#[verifier::external_body]
fn elf_parse<'a>(data: &'a Vec<u8>) -> (r: Result<ElfObject<'a>, elf::ParseError>)
    ensures
        r is Ok <==> parse_ok(data@),
        r matches Ok(e) ==> object_bytes(e) == data@,
{
    match elf::ElfBytes::minimal_parse(data.as_slice()) {
        Ok(e) => Ok(ElfObject { inner: e }),
        Err(err) => Err(err),
    }
}

/// Relies on `elf::ElfBytes::symbol_table`: returns the object's `.symtab`
/// and its associated string table, or `None` when the object has none.
/// The answer and both tables are functions of the object bytes alone.
#[verifier::external_body]
fn elf_symbol_table<'a>(e: &ElfObject<'a>) -> (r: Result<
    Option<(SymTable<'a>, StrTable<'a>)>,
    elf::ParseError,
>)
    ensures
        r is Ok <==> symtab_found(object_bytes(*e)) is Some,
        r matches Ok(o) ==> (o is Some <==> symtab_found(object_bytes(*e)) == Some(true)),
        r matches Ok(Some(p)) ==> table_entries(p.0) == symtab_of(object_bytes(*e))
            && strtab_source(p.1) == object_bytes(*e),
{
    match e.inner.symbol_table() {
        Ok(Some((sy, st))) => Ok(Some((SymTable { inner: sy }, StrTable { inner: st }))),
        Ok(None) => Ok(None),
        Err(err) => Err(err),
    }
}

/// Relies on `elf::parse::ParsingTable::iter`: hands out the table's symbol
/// entries in table order (stopping early at a malformed entry), converted
/// to the two fields read here.
#[verifier::external_body]
fn symtab_entries(st: &SymTable<'_>) -> (r: Vec<SymbolInfo>)
    ensures
        r@ == table_entries(*st),
{
    st.inner.iter().map(|s| SymbolInfo { st_name: s.st_name, st_shndx: s.st_shndx }).collect()
}

/// Relies on `elf::string_table::StringTable::get`: the null-terminated
/// string at the given offset, or `None` when the offset is out of bounds or
/// the bytes are not valid UTF-8 (or the table is itself malformed). The
/// answer is a function of the table's bytes and the offset alone.
#[verifier::external_body]
fn strtab_get(st: &StrTable<'_>, offset: usize) -> (r: Option<String>)
    ensures
        match r {
            Some(s) => name_at(strtab_source(*st), offset as int) == Some(s@),
            None => name_at(strtab_source(*st), offset as int) is None,
        },
{
    match st.inner.get(offset) {
        Ok(s) => Some(s.to_string()),
        Err(_) => None,
    }
}

/// Relies on `elf::ElfBytes::section_header_by_name`: the header of the
/// section with exactly the given name, or `None` when there is none (or
/// when the object lacks the section-name table). The answer is a function
/// of the object bytes and the name alone.
#[verifier::external_body]
fn elf_section_header(e: &ElfObject<'_>, name: &str) -> (r: Result<
    Option<elf::section::SectionHeader>,
    elf::ParseError,
>)
    ensures
        r is Ok <==> section_found(object_bytes(*e), name@) is Some,
        r matches Ok(o) ==> (o is Some <==> section_found(object_bytes(*e), name@) == Some(true)),
        r matches Ok(Some(h)) ==> header_source(h) == object_bytes(*e) && header_name(h) == name@,
{
    e.inner.section_header_by_name(name)
}

/// Relies on `elf::ElfBytes::section_data`: the section's raw bytes, with
/// `true` when the section carries an ELF compression header. For the
/// header that the name lookup returned on this same object, the answer is
/// a function of the object bytes and the section name alone.
#[verifier::external_body]
fn elf_section_data(e: &ElfObject<'_>, h: &elf::section::SectionHeader) -> (r: Result<
    (Vec<u8>, bool),
    elf::ParseError,
>)
    ensures
        header_source(*h) == object_bytes(*e) ==> match r {
            Ok(p) => section_content(object_bytes(*e), header_name(*h)) == Some((p.0@, p.1)),
            Err(_) => section_content(object_bytes(*e), header_name(*h)) is None,
        },
{
    match e.inner.section_data(h) {
        Ok((b, None)) => Ok((b.to_vec(), false)),
        Ok((b, Some(_))) => Ok((b.to_vec(), true)),
        Err(err) => Err(err),
    }
}

/// Relies on `elf::ParseError`'s `Display` impl for a human-readable message.
#[verifier::external_body]
fn parse_error_string(e: &elf::ParseError) -> (r: String) {
    format!("{}", e)
}

/// Collect the string-table offsets of the undefined symbols, skipping the
/// null entry, sorted ascending and de-duplicated.
pub fn undefined_name_offsets(syms: &Vec<SymbolInfo>) -> (r: Vec<u32>)
    ensures
        forall|a: int, b: int| 0 <= a < b < r@.len() ==> r@[a] < r@[b],
        forall|v: u32| #[trigger] r@.contains(v) <==> undef_offset_in(syms@, v),
{
    let mut r: Vec<u32> = Vec::new();
    if syms.len() <= 1 {
        return r;
    }
    let mut j: usize = 1;
    while j < syms.len()
        invariant
            1 <= j <= syms@.len(),
            forall|a: int, b: int| 0 <= a < b < r@.len() ==> r@[a] < r@[b],
            forall|v: u32| #[trigger] r@.contains(v) <==> undef_offset_in(syms@.take(j as int), v),
        decreases syms.len() - j,
    {
        let v = syms[j].st_name;
        let ghost old_r = r@;
        if syms[j].st_shndx == 0 {
            let mut k: usize = 0;
            while k < r.len() && r[k] < v
                invariant
                    k <= r@.len(),
                    r@ == old_r,
                    forall|t: int| 0 <= t < k ==> r@[t] < v,
                decreases r.len() - k,
            {
                k = k + 1;
            }
            if k == r.len() || r[k] > v {
                r.insert(k, v);
                proof {
                    old_r.insert_ensures(k as int, v);
                    assert forall|a: int, b: int| 0 <= a < b < r@.len() implies r@[a] < r@[b] by {
                        if b < k {
                        } else if a > k {
                            assert(r@[a] == old_r[a - 1] && r@[b] == old_r[b - 1]);
                        } else if a == k as int {
                            assert(r@[b] == old_r[b - 1]);
                            assert(old_r[k as int] > v);
                        } else if b == k as int {
                            assert(r@[a] == old_r[a]);
                        } else {
                            // a < k < b
                            assert(r@[a] == old_r[a] && r@[b] == old_r[b - 1]);
                            if k < old_r.len() {
                                assert(old_r[k as int] > v);
                            }
                        }
                    }
                    assert forall|x: u32| #[trigger] r@.contains(x) implies (old_r.contains(x) || x
                        == v) by {
                        let idx = choose|idx: int| 0 <= idx < r@.len() && r@[idx] == x;
                        if idx < k {
                            assert(old_r[idx] == x);
                        } else if idx > k {
                            assert(old_r[idx - 1] == x);
                        }
                    }
                    assert forall|x: u32| (old_r.contains(x) || x == v) implies #[trigger] r@
                        .contains(x) by {
                        if old_r.contains(x) {
                            let idx = choose|idx: int| 0 <= idx < old_r.len() && old_r[idx] == x;
                            if idx < k {
                                assert(r@[idx] == x);
                            } else {
                                assert(r@[idx + 1] == x);
                            }
                        } else {
                            assert(r@[k as int] == x);
                        }
                    }
                }
            } else {
                assert(r@.contains(v)) by {
                    assert(r@[k as int] == v);
                }
            }
        }
        proof {
            assert(syms@.take(j + 1).drop_last() =~= syms@.take(j as int));
            assert forall|x: u32| #[trigger] r@.contains(x) implies undef_offset_in(
                syms@.take(j + 1),
                x,
            ) by {
                if undef_offset_in(syms@.take(j as int), x) {
                    let w = choose|w: int|
                        1 <= w < j && (#[trigger] syms@.take(j as int)[w]).st_shndx == 0 && syms@.take(
                            j as int,
                        )[w].st_name == x;
                    assert(syms@.take(j + 1)[w].st_shndx == 0 && syms@.take(j + 1)[w].st_name
                        == x);
                } else {
                    assert(syms@.take(j + 1)[j as int].st_shndx == 0 && syms@.take(
                        j + 1,
                    )[j as int].st_name == x);
                }
            }
            assert forall|x: u32| undef_offset_in(syms@.take(j + 1), x) implies #[trigger] r@
                .contains(x) by {
                let w = choose|w: int|
                    1 <= w < j + 1 && (#[trigger] syms@.take(j + 1)[w]).st_shndx == 0 && syms@.take(
                        j + 1,
                    )[w].st_name == x;
                if w < j {
                    assert(syms@.take(j as int)[w].st_shndx == 0 && syms@.take(j as int)[w].st_name
                        == x);
                    assert(undef_offset_in(syms@.take(j as int), x));
                }
            }
        }
        j = j + 1;
    }
    proof {
        assert(syms@.take(syms@.len() as int) =~= syms@);
    }
    r
}

/// The display name used where a symbol's name is empty or unreadable.
pub fn unnamed_symbol_label() -> (r: String)
    ensures
        r@ == "(unnamed symbol)"@,
{
    "(unnamed symbol)".to_owned()
}

/// Extract a compiled object: require a symbol table and an uncompressed
/// `.text` section, and collect one display name per unique undefined
/// symbol (advisory only — undefined symbols are resolved at patch-apply
/// time). Duplicates are dropped by string-table offset, the granularity
/// the table itself gives names at: two distinct offsets holding equal
/// strings would both be listed.
///
/// Success comes exactly on the well-formed objects (`extraction_ok`), the
/// returned code is the `.text` bytes verbatim, and each error names the
/// defect that the object's contents owe (`extract_err_matches`).
pub fn extract_object(data: &Vec<u8>) -> (r: Result<Extraction, ExtractError>)
    ensures
        r is Ok <==> extraction_ok(data@),
        r matches Ok(ex) ==> ex.code@ == extracted_code(data@) && undefined_names_ok(
            data@,
            ex.undefined@,
        ),
        r matches Err(x) ==> extract_err_matches(data@, x),
{
    let e = match elf_parse(data) {
        Ok(e) => e,
        Err(pe) => {
            return Err(ExtractError::ObjectParseError(parse_error_string(&pe)));
        },
    };
    let (symtab, strtab) = match elf_symbol_table(&e) {
        Ok(Some(p)) => p,
        Ok(None) => {
            proof {
                assert(parse_ok(data@));
                assert(symtab_found(data@) is Some);
                assert(symtab_found(data@) != Some(true));
                assert(symtab_found(data@) == Some(false));
            }
            return Err(ExtractError::MissingSymbolTable);
        },
        Err(pe) => {
            return Err(ExtractError::ObjectParseError(parse_error_string(&pe)));
        },
    };
    let entries = symtab_entries(&symtab);
    let offsets = undefined_name_offsets(&entries);
    let mut names: Vec<String> = Vec::new();
    let mut i: usize = 0;
    while i < offsets.len()
        invariant
            i <= offsets@.len(),
            names@.len() == i,
            strtab_source(strtab) == data@,
            forall|t: int|
                0 <= t < i ==> (#[trigger] names@[t])@ == display_name(
                    name_at(data@, offsets@[t] as int),
                ),
        decreases offsets.len() - i,
    {
        let name = match strtab_get(&strtab, offsets[i] as usize) {
            Some(s) => if s.as_str().is_empty() {
                unnamed_symbol_label()
            } else {
                s
            },
            None => unnamed_symbol_label(),
        };
        names.push(name);
        i = i + 1;
    }
    let text_header = match elf_section_header(&e, ".text") {
        Ok(Some(h)) => h,
        Ok(None) => {
            proof {
                assert(section_found(data@, text_section_name()) is Some);
                assert(section_found(data@, text_section_name()) != Some(true));
                assert(section_found(data@, text_section_name()) == Some(false));
            }
            return Err(ExtractError::MissingTextSection);
        },
        Err(pe) => {
            return Err(ExtractError::ObjectParseError(parse_error_string(&pe)));
        },
    };
    let (bytes, compressed) = match elf_section_data(&e, &text_header) {
        Ok(p) => p,
        Err(pe) => {
            return Err(ExtractError::ObjectParseError(parse_error_string(&pe)));
        },
    };
    if compressed {
        return Err(ExtractError::UnsupportedCompression);
    }
    proof {
        assert(sorted_unique_undef(data@, offsets@));
        assert(undefined_names_ok(data@, names@));
    }
    Ok(Extraction { code: bytes, undefined: names })
}

} // verus!
