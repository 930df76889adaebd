//! What the test-count lookup reads of a firmware image, and the reading
//! itself, which the `object` crate does.

use vstd::prelude::*;
use object::Object;
use object::ObjectSection;
use object::ObjectSymbol;

verus! {

/// One entry of an image's symbol table, as far as symbol lookup reads it.
#[derive(Debug)]
pub struct SymbolRecord {
    /// The symbol's name, where the image holds a readable one.
    pub name: Option<String>,
    /// Index of the section that the symbol is defined in, if it is defined
    /// in one.
    pub section: Option<usize>,
    /// The symbol's recorded address.
    pub address: u64,
    /// The symbol's recorded size in bytes.
    pub size: u64,
}

/// A symbol table entry as mathematical values.
pub struct SymbolModel {
    pub name: Option<Seq<char>>,
    pub section: Option<usize>,
    pub address: u64,
    pub size: u64,
}

impl View for SymbolRecord {
    type V = SymbolModel;

    open spec fn view(&self) -> SymbolModel {
        SymbolModel {
            name: match self.name {
                Some(name) => Some(name@),
                None => None,
            },
            section: self.section,
            address: self.address,
            size: self.size,
        }
    }
}

/// The models of a list of symbol records, in order.
pub open spec fn symbol_models(symbols: Seq<SymbolRecord>) -> Seq<SymbolModel> {
    symbols.map_values(|symbol: SymbolRecord| symbol@)
}

/// What the lookup reads of a parsed image: its byte order, its address
/// width and its symbol table.
#[derive(Debug)]
pub struct ImageSummary {
    pub little_endian: bool,
    pub is_64: bool,
    pub symbols: Vec<SymbolRecord>,
}

/// A parsed image as mathematical values.
pub struct ImageModel {
    pub little_endian: bool,
    pub is_64: bool,
    pub symbols: Seq<SymbolModel>,
}

impl View for ImageSummary {
    type V = ImageModel;

    open spec fn view(&self) -> ImageModel {
        ImageModel {
            little_endian: self.little_endian,
            is_64: self.is_64,
            symbols: symbol_models(self.symbols@),
        }
    }
}

/// The container format of an image, as the `object` crate tells formats
/// apart. `Other` stands for any format that a later version of the crate
/// adds.
#[derive(Clone, Copy, Debug, PartialEq, Eq, Structural)]
pub enum ImageFormat {
    Coff,
    Elf,
    MachO,
    Pe,
    Wasm,
    Xcoff,
    Other,
}

impl ImageFormat {
    /// Whether a test count can be read from images of this format: from
    /// ELF alone. Firmware images are ELF, and of the other formats the
    /// symbol tables do not record what the lookup reads.
    pub open spec fn is_readable(self) -> bool {
        self == ImageFormat::Elf
    }

    /// Whether a test count can be read from images of this format.
    pub fn readable(&self) -> (readable: bool)
        ensures
            readable == self.is_readable(),
    {
        match self {
            ImageFormat::Elf => true,
            _ => false,
        }
    }
}

/// The error of the `object` crate's readers.
#[verifier::external_type_specification]
#[verifier::external_body]
pub struct ExObjectError(object::Error);

/// The format that `object::File::parse` finds the image `bytes` to be in:
/// `None` where it rejects them.
pub uninterp spec fn image_format(bytes: Seq<u8>) -> Option<ImageFormat>;

/// What `object::File::parse` makes of an image's bytes, reduced to a
/// summary: `None` where it rejects them.
pub uninterp spec fn parsed_image(bytes: Seq<u8>) -> Option<ImageModel>;

/// The bytes that the section `section` of the image `bytes` holds for the
/// `size` addresses from `address` on, as `data_range` of the `object`
/// crate's sections gives them: `None` where the image does not parse, has
/// no such section, the section's bytes cannot be read, or the section does
/// not hold the whole range.
pub uninterp spec fn section_range(bytes: Seq<u8>, section: usize, address: u64, size: u64) -> Option<
    Seq<u8>,
>;

/// Parses an image with `object::File::parse` and tells its `format`.
///
/// Trusted: that the outcome is a function of the bytes alone, which
/// `image_format` names, and that the two calls return on every input.
#[verifier::external_body]
pub(crate) fn read_format(bytes: &[u8]) -> (format: Result<ImageFormat, object::Error>)
    ensures
        format is Ok <==> image_format(bytes@) is Some,
        format matches Ok(found) ==> image_format(bytes@) == Some(found),
{
    Ok(match object::File::parse(bytes)?.format() {
        object::BinaryFormat::Coff => ImageFormat::Coff,
        object::BinaryFormat::Elf => ImageFormat::Elf,
        object::BinaryFormat::MachO => ImageFormat::MachO,
        object::BinaryFormat::Pe => ImageFormat::Pe,
        object::BinaryFormat::Wasm => ImageFormat::Wasm,
        object::BinaryFormat::Xcoff => ImageFormat::Xcoff,
        _ => ImageFormat::Other,
    })
}

/// Parses an ELF image with `object::File::parse` and copies out its byte
/// order (`is_little_endian`), its address width (`is_64`) and, for each
/// entry that `symbols` yields, the name (`name`), the section index
/// (`section().index()`), the address and the size.
///
/// Asked of ELF images only. The symbol accessors of the other formats are
/// not total: the address of a PE symbol is a sum with the image base, which
/// overflows for a base near the top of the address range.
///
/// Trusted: that on an ELF image the calls return, and that the outcome is a
/// function of the bytes alone, which `parsed_image` names. Nothing is
/// claimed of what the summary holds.
#[verifier::external_body]
pub(crate) fn read_image(bytes: &[u8]) -> (image: Result<ImageSummary, object::Error>)
    requires
        image_format(bytes@) == Some(ImageFormat::Elf),
    ensures
        image is Ok <==> parsed_image(bytes@) is Some,
        image matches Ok(summary) ==> parsed_image(bytes@) == Some(summary@),
{
    let file = object::File::parse(bytes)?;
    let symbols = file.symbols().map(|symbol| SymbolRecord {
        name: symbol.name().ok().map(|name| name.to_string()),
        section: symbol.section().index().map(|index| index.0),
        address: symbol.address(),
        size: symbol.size(),
    }).collect();
    Ok(ImageSummary { little_endian: file.is_little_endian(), is_64: file.is_64(), symbols })
}

/// Parses an image with `object::File::parse`, looks up a section with
/// `section_by_index` and copies out the bytes that its `data_range` gives
/// for the address range.
///
/// Trusted: that the outcome is a function of the arguments alone, which
/// `section_range` names, and that a range that is found has the length
/// asked for. A failure of any of the three calls, and a range that the
/// section does not hold, all come back as `None`.
#[verifier::external_body]
pub(crate) fn read_section_range(bytes: &[u8], section: usize, address: u64, size: u64) -> (data:
    Option<Vec<u8>>)
    ensures
        data is Some <==> section_range(bytes@, section, address, size) is Some,
        data matches Some(found) ==> section_range(bytes@, section, address, size) == Some(found@),
        data matches Some(found) ==> found@.len() == size,
{
    let file = object::File::parse(bytes).ok()?;
    let section = file.section_by_index(object::SectionIndex(section)).ok()?;
    section.data_range(address, size).ok()?.map(|data| data.to_vec())
}

} // verus!
