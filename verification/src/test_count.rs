//! How many reports to expect: the value of the test-count symbol of the
//! firmware image.

use vstd::prelude::*;
use crate::image::image_format;
use crate::image::parsed_image;
use crate::image::read_format;
use crate::image::read_image;
use crate::image::read_section_range;
use crate::image::section_range;
use crate::image::symbol_models;
use crate::image::ImageModel;
use crate::image::ImageSummary;
use crate::image::SymbolModel;
use crate::image::SymbolRecord;

verus! {

/// Why no test count could be read from an image.
#[derive(Clone, Copy, Debug, PartialEq, Eq, Structural)]
pub enum ResolveError {
    /// The bytes are not an ELF image that can be read.
    InvalidImage,
    /// The image has no test-count symbol.
    NotFound,
    /// The symbol is there, but the bytes behind it cannot be read as one
    /// integer of the image's address width.
    MalformedData,
}

impl ResolveError {
    /// What went wrong, in words.
    pub open spec fn message_text(self) -> Seq<char> {
        match self {
            ResolveError::InvalidImage => "target binary is not a readable ELF file"@,
            ResolveError::NotFound => "symbol DEFMT_TEST_COUNT not found"@,
            ResolveError::MalformedData => "symbol DEFMT_TEST_COUNT does not hold one integer of the binary's address width"@,
        }
    }

    /// What went wrong, in words.
    pub fn message(&self) -> (text: &'static str)
        ensures
            text@ == self.message_text(),
    {
        match self {
            ResolveError::InvalidImage => "target binary is not a readable ELF file",
            ResolveError::NotFound => "symbol DEFMT_TEST_COUNT not found",
            ResolveError::MalformedData => "symbol DEFMT_TEST_COUNT does not hold one integer of the binary's address width",
        }
    }
}

/// Name of the symbol that holds the number of tests.
pub open spec fn test_count_symbol() -> Seq<char> {
    "DEFMT_TEST_COUNT"@
}

/// The name that older firmware gives the same symbol.
pub open spec fn legacy_test_count_symbol() -> Seq<char> {
    "__DEFMT_TEST_COUNT"@
}

/// Position of the first of `symbols` that is called `name`.
pub open spec fn first_named(symbols: Seq<SymbolModel>, name: Seq<char>) -> Option<int>
    decreases symbols.len(),
{
    if symbols.len() == 0 {
        None
    } else {
        match first_named(symbols.drop_last(), name) {
            Some(at) => Some(at),
            None => if symbols.last().name == Some(name) {
                Some(symbols.len() - 1)
            } else {
                None
            },
        }
    }
}

/// Position of the test-count symbol among `symbols`: the first symbol
/// under the current name, or else the first under the older name.
pub open spec fn located_test_count(symbols: Seq<SymbolModel>) -> Option<int> {
    match first_named(symbols, test_count_symbol()) {
        Some(at) => Some(at),
        None => first_named(symbols, legacy_test_count_symbol()),
    }
}

/// What `first_named` finds: the least position that holds the name.
pub proof fn lemma_first_named(symbols: Seq<SymbolModel>, name: Seq<char>)
    ensures
        first_named(symbols, name) matches Some(at) ==> {
            &&& 0 <= at < symbols.len()
            &&& symbols[at].name == Some(name)
            &&& forall|k: int| 0 <= k < at ==> (#[trigger] symbols[k]).name != Some(name)
        },
        first_named(symbols, name) is None ==> forall|k: int|
            0 <= k < symbols.len() ==> (#[trigger] symbols[k]).name != Some(name),
    decreases symbols.len(),
{
    if symbols.len() > 0 {
        let before = symbols.drop_last();
        lemma_first_named(before, name);
        assert forall|k: int| 0 <= k < before.len() implies before[k] == symbols[k] by {}
    }
}

/// Finds the first of `symbols` that is called `name`.
pub fn find_symbol(symbols: &[SymbolRecord], name: &str) -> (found: Option<usize>)
    ensures
        match found {
            Some(at) => first_named(symbol_models(symbols@), name@) == Some(at as int),
            None => first_named(symbol_models(symbols@), name@) is None,
        },
{
    let wanted = name.to_owned();
    let mut at: usize = 0;
    assert(symbol_models(symbols@).take(0) =~= Seq::empty());
    while at < symbols.len()
        invariant
            at <= symbols.len(),
            wanted@ == name@,
            first_named(symbol_models(symbols@).take(at as int), name@) is None,
        decreases symbols.len() - at,
    {
        let ghost models = symbol_models(symbols@);
        let is_named = match &symbols[at].name {
            Some(symbol_name) => *symbol_name == wanted,
            None => false,
        };
        proof {
            assert(models.take(at + 1).drop_last() =~= models.take(at as int));
            assert(models.take(at + 1).last() == symbols@[at as int]@);
        }
        if is_named {
            proof {
                lemma_first_named_extends(models, name@, at + 1);
            }
            return Some(at);
        }
        at += 1;
    }
    assert(symbol_models(symbols@).take(at as int) =~= symbol_models(symbols@));
    None
}

/// A symbol found among the first `end` symbols is the one found among all.
proof fn lemma_first_named_extends(symbols: Seq<SymbolModel>, name: Seq<char>, end: int)
    requires
        0 <= end <= symbols.len(),
        first_named(symbols.take(end), name) is Some,
    ensures
        first_named(symbols, name) == first_named(symbols.take(end), name),
    decreases symbols.len() - end,
{
    if end < symbols.len() {
        assert(symbols.take(end + 1).drop_last() =~= symbols.take(end));
        lemma_first_named_extends(symbols, name, end + 1);
    } else {
        assert(symbols.take(end) =~= symbols);
    }
}

/// Finds the test-count symbol among `symbols`.
pub fn locate_test_count(symbols: &[SymbolRecord]) -> (found: Option<usize>)
    ensures
        match found {
            Some(at) => located_test_count(symbol_models(symbols@)) == Some(at as int),
            None => located_test_count(symbol_models(symbols@)) is None,
        },
{
    match find_symbol(symbols, "DEFMT_TEST_COUNT") {
        Some(at) => Some(at),
        None => find_symbol(symbols, "__DEFMT_TEST_COUNT"),
    }
}

/// The number that `bytes` spell with the most significant byte first.
pub open spec fn big_endian_value(bytes: Seq<u8>) -> nat
    decreases bytes.len(),
{
    if bytes.len() == 0 {
        0
    } else {
        256 * big_endian_value(bytes.drop_last()) + bytes.last() as nat
    }
}

/// The number that `bytes` spell with the least significant byte first.
pub open spec fn little_endian_value(bytes: Seq<u8>) -> nat
    decreases bytes.len(),
{
    if bytes.len() == 0 {
        0
    } else {
        bytes.first() as nat + 256 * little_endian_value(bytes.drop_first())
    }
}

/// Number of bytes of an integer of the image's address width.
pub open spec fn word_len(is_64: bool) -> nat {
    if is_64 {
        8
    } else {
        4
    }
}

/// The count that `data` encodes in an image of the given byte order and
/// address width: `data` must be exactly one integer of that width.
pub open spec fn decoded_count(data: Seq<u8>, little_endian: bool, is_64: bool) -> Result<
    u64,
    ResolveError,
> {
    if data.len() != word_len(is_64) {
        Err(ResolveError::MalformedData)
    } else if little_endian {
        Ok(little_endian_value(data) as u64)
    } else {
        Ok(big_endian_value(data) as u64)
    }
}

/// 256 to the power of `digits`.
spec fn radix_power(digits: nat) -> nat
    decreases digits,
{
    if digits == 0 {
        1
    } else {
        256 * radix_power((digits - 1) as nat)
    }
}

proof fn lemma_big_endian_bound(bytes: Seq<u8>)
    ensures
        big_endian_value(bytes) < radix_power(bytes.len()),
    decreases bytes.len(),
{
    if bytes.len() > 0 {
        lemma_big_endian_bound(bytes.drop_last());
    }
}

proof fn lemma_little_endian_bound(bytes: Seq<u8>)
    ensures
        little_endian_value(bytes) < radix_power(bytes.len()),
    decreases bytes.len(),
{
    if bytes.len() > 0 {
        lemma_little_endian_bound(bytes.drop_first());
    }
}

/// An integer of at most eight bytes fits 64 bits, whichever way it is
/// spelt.
pub proof fn lemma_word_fits(bytes: Seq<u8>)
    requires
        bytes.len() <= 8,
    ensures
        big_endian_value(bytes) <= u64::MAX,
        little_endian_value(bytes) <= u64::MAX,
{
    lemma_big_endian_bound(bytes);
    lemma_little_endian_bound(bytes);
    lemma_radix_power_grows(bytes.len(), 8);
    assert(radix_power(8) == 0x1_0000_0000_0000_0000) by {
        reveal_with_fuel(radix_power, 9);
    }
}

proof fn lemma_radix_power_grows(low: nat, high: nat)
    requires
        low <= high,
    ensures
        radix_power(low) <= radix_power(high),
    decreases high - low,
{
    if low < high {
        lemma_radix_power_grows(low, (high - 1) as nat);
    }
}

/// Reads `data` as the test count of an image with the given byte order
/// and address width.
pub fn decode_count(data: &[u8], little_endian: bool, is_64: bool) -> (count: Result<
    u64,
    ResolveError,
>)
    ensures
        count == decoded_count(data@, little_endian, is_64),
{
    let width: usize = if is_64 {
        8
    } else {
        4
    };
    if data.len() != width {
        return Err(ResolveError::MalformedData);
    }
    let mut value: u64 = 0;
    let mut done: usize = 0;
    if little_endian {
        assert(data@.skip(width as int) =~= Seq::empty());
        while done < width
            invariant
                done <= width == data.len() <= 8,
                value == little_endian_value(data@.skip(width - done)),
            decreases width - done,
        {
            let ghost rest = data@.skip(width - done - 1);
            proof {
                assert(rest.drop_first() =~= data@.skip(width - done));
                lemma_word_fits(rest);
            }
            value = value * 256 + (data[width - done - 1] as u64);
            done += 1;
        }
        assert(data@.skip(0) =~= data@);
    } else {
        assert(data@.take(0) =~= Seq::empty());
        while done < width
            invariant
                done <= width == data.len() <= 8,
                value == big_endian_value(data@.take(done as int)),
            decreases width - done,
        {
            let ghost next = data@.take(done + 1);
            proof {
                assert(next.drop_last() =~= data@.take(done as int));
                lemma_word_fits(next);
            }
            value = value * 256 + (data[done] as u64);
            done += 1;
        }
        assert(data@.take(width as int) =~= data@);
    }
    Ok(value)
}

/// The bytes behind a symbol of the image `bytes`: those of its section at
/// its recorded address and size, if it has a section and the section holds
/// them.
pub open spec fn symbol_data(bytes: Seq<u8>, symbol: SymbolModel) -> Option<Seq<u8>> {
    match symbol.section {
        Some(section) => section_range(bytes, section, symbol.address, symbol.size),
        None => None,
    }
}

/// The count behind the symbol at position `at` of `image`, given the bytes
/// that were read for it, if any: the symbol must be there and lie in a
/// section, and the bytes must be there and be one integer of the image's
/// address width.
pub open spec fn count_behind(image: ImageModel, at: int, data: Option<Seq<u8>>) -> Result<
    u64,
    ResolveError,
> {
    if !(0 <= at < image.symbols.len()) {
        Err(ResolveError::NotFound)
    } else if image.symbols[at].section is None {
        Err(ResolveError::MalformedData)
    } else {
        match data {
            Some(bytes) => decoded_count(bytes, image.little_endian, image.is_64),
            None => Err(ResolveError::MalformedData),
        }
    }
}

/// The model of bytes that may be missing.
pub open spec fn data_model(data: Option<&[u8]>) -> Option<Seq<u8>> {
    match data {
        Some(bytes) => Some(bytes@),
        None => None,
    }
}

/// Reads the count behind the symbol at position `at` of `image` from the
/// bytes that were read for it, if any were.
pub fn count_behind_symbol(image: &ImageSummary, at: usize, data: Option<&[u8]>) -> (count: Result<
    u64,
    ResolveError,
>)
    ensures
        count == count_behind(image@, at as int, data_model(data)),
{
    if at >= image.symbols.len() {
        return Err(ResolveError::NotFound);
    }
    if image.symbols[at].section.is_none() {
        return Err(ResolveError::MalformedData);
    }
    match data {
        Some(bytes) => decode_count(bytes, image.little_endian, image.is_64),
        None => Err(ResolveError::MalformedData),
    }
}

/// The test count of the image `bytes`, or why it has none.
pub open spec fn resolved_count(bytes: Seq<u8>) -> Result<u64, ResolveError> {
    match image_format(bytes) {
        None => Err(ResolveError::InvalidImage),
        Some(format) => if !format.is_readable() {
            Err(ResolveError::InvalidImage)
        } else {
            match parsed_image(bytes) {
                None => Err(ResolveError::InvalidImage),
                Some(image) => match located_test_count(image.symbols) {
                    None => Err(ResolveError::NotFound),
                    Some(at) => count_behind(image, at, symbol_data(bytes, image.symbols[at])),
                },
            }
        },
    }
}

/// The test-count symbol of the image `bytes` is recorded with the size of
/// one integer of the image's address width.
pub open spec fn recorded_size_is_word(bytes: Seq<u8>) -> bool {
    &&& parsed_image(bytes) matches Some(image)
    &&& located_test_count(image.symbols) matches Some(at)
    &&& 0 <= at < image.symbols.len()
    &&& image.symbols[at].size == word_len(image.is_64)
}

/// Reads the number of tests that the firmware image `bytes` will run: the
/// value of its test-count symbol, read from the symbol's section in the
/// image's own byte order and address width. The image must be ELF.
pub fn resolve_test_count(bytes: &[u8]) -> (count: Result<u64, ResolveError>)
    ensures
        count == resolved_count(bytes@),
        count is Ok ==> recorded_size_is_word(bytes@),
{
    let format = match read_format(bytes) {
        Ok(format) => format,
        Err(_) => {
            return Err(ResolveError::InvalidImage);
        },
    };
    if !format.readable() {
        return Err(ResolveError::InvalidImage);
    }
    let image = match read_image(bytes) {
        Ok(image) => image,
        Err(_) => {
            return Err(ResolveError::InvalidImage);
        },
    };
    let at = match locate_test_count(image.symbols.as_slice()) {
        Some(at) => at,
        None => {
            return Err(ResolveError::NotFound);
        },
    };
    proof {
        lemma_first_named(image@.symbols, test_count_symbol());
        lemma_first_named(image@.symbols, legacy_test_count_symbol());
    }
    let symbol = &image.symbols[at];
    let data = match symbol.section {
        Some(section) => read_section_range(bytes, section, symbol.address, symbol.size),
        None => None,
    };
    let found = match &data {
        Some(bytes_found) => Some(bytes_found.as_slice()),
        None => None,
    };
    count_behind_symbol(&image, at, found)
}

/// Resolution is a function of the image's bytes: equal images resolve
/// alike. An ELF image that parses and lacks the symbol under both names
/// gives `NotFound`, and nothing else does.
pub proof fn lemma_resolution_deterministic(first: Seq<u8>, second: Seq<u8>)
    requires
        first =~= second,
    ensures
        resolved_count(first) == resolved_count(second),
        resolved_count(first) == Err::<u64, ResolveError>(ResolveError::NotFound) <==> (
        image_format(first) matches Some(format) && format.is_readable() && (parsed_image(
            first,
        ) matches Some(image) && located_test_count(image.symbols) is None)),
{
    match parsed_image(first) {
        Some(image) => {
            lemma_first_named(image.symbols, test_count_symbol());
            lemma_first_named(image.symbols, legacy_test_count_symbol());
        },
        None => {},
    }
}

} // verus!
