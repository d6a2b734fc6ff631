use vstd::prelude::*;

use crate::acm::{acm_data, extract_acm};
use crate::directory::{directory_of, get_directory, Asset, AssetRecord, Directory};
use crate::error::FormatError;
use crate::extracttxt::extract_txt_asset;
use crate::grid::{Raster, RgbGrid, RgbaGrid};
use crate::img::{extract_img, img_image, Transparency};
use crate::imgcontainer::{container_images, extract_img_container, grids_view};
use crate::imgwithpalette::{extract_img_with_palette, img_with_palette};
use crate::palette::{get_palettes, palette_bank, palettes_view, render_palette};
use crate::raw::{extract_raw, payload};

verus! {

/// The tag of an image that brings its own palette.
pub const ASSET_IMG_WITH_PALETTE: u32 = 1;

/// The tag of a container of sparse-row images.
pub const ASSET_IMG_CONTAINER: u32 = 2;

/// The tag of a container of images of one colour.
pub const ASSET_IMG_MONO_CONTAINER: u32 = 3;

/// The tag of a string.
pub const ASSET_STR: u32 = 4;

/// The tag of an image whose palette is one of the bank.
pub const ASSET_IMG: u32 = 5;

/// The tag of a text.
pub const ASSET_TXT: u32 = 7;

/// The tag of sound data.
pub const ASSET_ACM: u32 = 8;

/// The kinds of asset that the tags tell apart.
#[derive(Clone, Copy, Debug, PartialEq, Eq, Structural)]
pub enum AssetKind {
    ImageWithPalette,
    ImageContainer,
    ImageMonoContainer,
    Text,
    Image,
    Sound,
    /// Any tag that stands for none of the others.
    Other,
}

/// The kind of asset that a tag stands for.
pub open spec fn kind_of(type_: u32) -> AssetKind {
    if type_ == ASSET_IMG_WITH_PALETTE {
        AssetKind::ImageWithPalette
    } else if type_ == ASSET_IMG_CONTAINER {
        AssetKind::ImageContainer
    } else if type_ == ASSET_IMG_MONO_CONTAINER {
        AssetKind::ImageMonoContainer
    } else if type_ == ASSET_STR || type_ == ASSET_TXT {
        AssetKind::Text
    } else if type_ == ASSET_IMG {
        AssetKind::Image
    } else if type_ == ASSET_ACM {
        AssetKind::Sound
    } else {
        AssetKind::Other
    }
}

/// The kind of asset that a tag stands for.
pub fn asset_kind(type_: u32) -> (kind: AssetKind)
    ensures
        kind == kind_of(type_),
{
    match type_ {
        ASSET_IMG_WITH_PALETTE => AssetKind::ImageWithPalette,
        ASSET_IMG_CONTAINER => AssetKind::ImageContainer,
        ASSET_IMG_MONO_CONTAINER => AssetKind::ImageMonoContainer,
        ASSET_STR | ASSET_TXT => AssetKind::Text,
        ASSET_IMG => AssetKind::Image,
        ASSET_ACM => AssetKind::Sound,
        _ => AssetKind::Other,
    }
}

/// What an asset was decoded to.
pub enum Extracted {
    /// Bytes to be kept as they are.
    Bytes(Vec<u8>),
    /// An image without transparency.
    Rgb(RgbGrid),
    /// An image with transparency.
    Rgba(RgbaGrid),
    /// The images of a container, in the order of its table.
    Frames(Vec<RgbaGrid>),
}

/// What an `Extracted` holds.
pub enum ExtractedView {
    Bytes(Seq<u8>),
    Rgb(Raster),
    Rgba(Raster),
    Frames(Seq<Raster>),
}

impl View for Extracted {
    type V = ExtractedView;

    open spec fn view(&self) -> ExtractedView {
        match self {
            Extracted::Bytes(bytes) => ExtractedView::Bytes(bytes@),
            Extracted::Rgb(grid) => ExtractedView::Rgb(grid@),
            Extracted::Rgba(grid) => ExtractedView::Rgba(grid@),
            Extracted::Frames(grids) => ExtractedView::Frames(grids_view(grids@)),
        }
    }
}

/// What the result of decoding an asset holds.
pub open spec fn outcome_view(outcome: Result<Extracted, FormatError>) -> Result<
    ExtractedView,
    FormatError,
> {
    match outcome {
        Ok(extracted) => Ok(extracted@),
        Err(e) => Err(e),
    }
}

/// The bytes that a decoder yields, as an extraction.
pub open spec fn as_bytes(data: Result<Seq<u8>, FormatError>) -> Result<ExtractedView, FormatError> {
    match data {
        Ok(bytes) => Ok(ExtractedView::Bytes(bytes)),
        Err(e) => Err(e),
    }
}

/// What an asset of an archive with a palette bank decodes to. Images are
/// decoded by their kind; texts, sound data and assets of any other kind
/// are handed out as they are, and so are the containers of images of one
/// colour.
pub open spec fn extraction(source: Seq<u8>, palettes: Seq<Seq<u8>>, asset: AssetRecord) -> Result<
    ExtractedView,
    FormatError,
> {
    match kind_of(asset.type_) {
        AssetKind::ImageWithPalette => match img_with_palette(source, asset.offset, asset.length) {
            Ok(raster) => Ok(ExtractedView::Rgb(raster)),
            Err(e) => Err(e),
        },
        AssetKind::ImageContainer => match container_images(source, palettes, asset.offset) {
            Ok(rasters) => Ok(ExtractedView::Frames(rasters)),
            Err(e) => Err(e),
        },
        AssetKind::Image => match img_image(
            source,
            palettes,
            asset.offset,
            asset.length,
            Transparency::FirstEntry,
        ) {
            Ok(raster) => Ok(ExtractedView::Rgba(raster)),
            Err(e) => Err(e),
        },
        _ => as_bytes(payload(source, asset.offset, asset.length)),
    }
}

/// Decodes one asset of an archive with a palette bank by its kind.
pub fn extract_asset(res_file: &[u8], palettes: &Vec<[u8; 768]>, asset: &Asset) -> (outcome: Result<
    Extracted,
    FormatError,
>)
    ensures
        outcome_view(outcome) == extraction(res_file@, palettes_view(palettes@), asset@),
{
    match asset_kind(asset.type_) {
        AssetKind::ImageWithPalette => match extract_img_with_palette(res_file, asset) {
            Ok(image) => Ok(Extracted::Rgb(image)),
            Err(e) => Err(e),
        },
        AssetKind::ImageContainer => match extract_img_container(res_file, palettes, asset) {
            Ok(images) => Ok(Extracted::Frames(images)),
            Err(e) => Err(e),
        },
        AssetKind::Image => match extract_img(res_file, palettes, asset) {
            Ok(image) => Ok(Extracted::Rgba(image)),
            Err(e) => Err(e),
        },
        AssetKind::Text => match extract_txt_asset(res_file, asset) {
            Ok(data) => Ok(Extracted::Bytes(data)),
            Err(e) => Err(e),
        },
        _ => match extract_raw(res_file, asset) {
            Ok(data) => Ok(Extracted::Bytes(data)),
            Err(e) => Err(e),
        },
    }
}

/// Decodes every asset of an archive with a palette bank. An asset that
/// cannot be decoded has its error in its place; the others are decoded
/// all the same.
pub fn extract_assets(res_file: &[u8], palettes: &Vec<[u8; 768]>, assets: &Vec<Asset>) -> (outcomes:
    Vec<Result<Extracted, FormatError>>)
    ensures
        outcomes@.len() == assets@.len(),
        forall|i: int|
            0 <= i < assets@.len() ==> outcome_view(#[trigger] outcomes@[i]) == extraction(
                res_file@,
                palettes_view(palettes@),
                assets@[i]@,
            ),
{
    let mut outcomes: Vec<Result<Extracted, FormatError>> = Vec::new();
    let mut i: usize = 0;
    while i < assets.len()
        invariant
            i <= assets.len(),
            outcomes@.len() == i,
            forall|k: int|
                0 <= k < i ==> outcome_view(#[trigger] outcomes@[k]) == extraction(
                    res_file@,
                    palettes_view(palettes@),
                    assets@[k]@,
                ),
        decreases assets.len() - i,
    {
        let outcome = extract_asset(res_file, palettes, &assets[i]);
        outcomes.push(outcome);
        i = i + 1;
    }
    outcomes
}

/// What an asset of an archive without palettes decodes to: the sound
/// data of a sound, and the payload as it is of any other asset.
pub open spec fn caf_extraction(source: Seq<u8>, asset: AssetRecord) -> Result<
    ExtractedView,
    FormatError,
> {
    match kind_of(asset.type_) {
        AssetKind::Sound => as_bytes(acm_data(source, asset.offset, asset.length)),
        _ => as_bytes(payload(source, asset.offset, asset.length)),
    }
}

/// Decodes one asset of an archive without palettes by its kind.
pub fn extract_caf_asset(res_file: &[u8], asset: &Asset) -> (outcome: Result<Extracted, FormatError>)
    ensures
        outcome_view(outcome) == caf_extraction(res_file@, asset@),
{
    let data = match asset_kind(asset.type_) {
        AssetKind::Sound => extract_acm(res_file, asset),
        AssetKind::Text => extract_txt_asset(res_file, asset),
        _ => extract_raw(res_file, asset),
    };
    match data {
        Ok(data) => Ok(Extracted::Bytes(data)),
        Err(e) => Err(e),
    }
}

/// The directory of an archive and what each of its assets decoded to.
pub struct Contents {
    pub directory: Directory,
    /// One outcome for each asset of the directory, in its order.
    pub outcomes: Vec<Result<Extracted, FormatError>>,
}

/// Reads the directory of an archive without palettes and decodes every
/// asset of it. An archive whose directory cannot be read is refused as a
/// whole; an asset that cannot be decoded has its error in its place.
pub fn extract_max2_caf(res_file: &[u8]) -> (contents: Result<Contents, FormatError>)
    ensures
        match directory_of(res_file@) {
            Err(e) => contents matches Err(x) && x == e,
            Ok(record) => contents matches Ok(c) && c.directory@ == record && c.outcomes@.len()
                == record.assets.len() && forall|i: int|
                0 <= i < record.assets.len() ==> outcome_view(#[trigger] c.outcomes@[i])
                    == caf_extraction(res_file@, record.assets[i]),
        },
{
    let directory = get_directory(res_file)?;
    let mut outcomes: Vec<Result<Extracted, FormatError>> = Vec::new();
    let mut i: usize = 0;
    while i < directory.assets.len()
        invariant
            i <= directory.assets.len(),
            outcomes@.len() == i,
            forall|k: int|
                0 <= k < i ==> outcome_view(#[trigger] outcomes@[k]) == caf_extraction(
                    res_file@,
                    directory.assets@[k]@,
                ),
        decreases directory.assets.len() - i,
    {
        let outcome = extract_caf_asset(res_file, &directory.assets[i]);
        outcomes.push(outcome);
        i = i + 1;
    }
    Ok(Contents { directory, outcomes })
}

/// Paints every palette of a bank as a square of 16 by 16 colours.
pub fn extract_max2_res_palettes(palettes: &Vec<[u8; 768]>) -> (images: Vec<RgbGrid>)
    ensures
        images@.len() == palettes@.len(),
        forall|i: int|
            0 <= i < palettes@.len() ==> (#[trigger] images@[i])@ == (Raster {
                width: 16,
                height: 16,
                channels: 3,
                samples: palettes@[i]@,
            }),
{
    let mut images: Vec<RgbGrid> = Vec::new();
    let mut i: usize = 0;
    while i < palettes.len()
        invariant
            i <= palettes.len(),
            images@.len() == i,
            forall|k: int|
                0 <= k < i ==> (#[trigger] images@[k])@ == (Raster {
                    width: 16,
                    height: 16,
                    channels: 3,
                    samples: palettes@[k]@,
                }),
        decreases palettes.len() - i,
    {
        let image = render_palette(&palettes[i]);
        images.push(image);
        i = i + 1;
    }
    images
}

/// An archive with a palette bank, decoded.
pub struct ResContents {
    pub directory: Directory,
    pub palettes: Vec<[u8; 768]>,
    /// One image for each palette.
    pub palette_images: Vec<RgbGrid>,
    /// One outcome for each asset of the directory, in its order.
    pub outcomes: Vec<Result<Extracted, FormatError>>,
}

/// Reads the directory and the palette bank of an archive and decodes
/// every asset of it. An archive whose directory or bank cannot be read is
/// refused as a whole; an asset that cannot be decoded has its error in
/// its place.
pub fn extract_max2_res(res_file: &[u8]) -> (contents: Result<ResContents, FormatError>)
    ensures
        match directory_of(res_file@) {
            Err(e) => contents matches Err(x) && x == e,
            Ok(record) => match palette_bank(res_file@, record.offset + record.length) {
                Err(e) => contents matches Err(x) && x == e,
                Ok(bank) => contents matches Ok(c) && c.directory@ == record && palettes_view(
                    c.palettes@,
                ) == bank && c.palette_images@.len() == bank.len() && (forall|i: int|
                    0 <= i < bank.len() ==> (#[trigger] c.palette_images@[i])@ == (Raster {
                        width: 16,
                        height: 16,
                        channels: 3,
                        samples: bank[i],
                    })) && c.outcomes@.len() == record.assets.len() && (forall|i: int|
                    0 <= i < record.assets.len() ==> outcome_view(#[trigger] c.outcomes@[i])
                        == extraction(res_file@, bank, record.assets[i])),
            },
        },
{
    let directory = get_directory(res_file)?;
    let palettes = get_palettes(res_file, &directory)?;
    let palette_images = extract_max2_res_palettes(&palettes);
    let outcomes = extract_assets(res_file, &palettes, &directory.assets);
    Ok(ResContents { directory, palettes, palette_images, outcomes })
}

} // verus!
