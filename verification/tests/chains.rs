use ouch::error::Error;
use ouch::extension::CompressionFormat;
use ouch::extension::Extension;
use ouch::extension::parse_extension_chain;
use ouch::file::File;

use ouch::extension::CompressionFormat::Bzip;
use ouch::extension::CompressionFormat::Bzip2;
use ouch::extension::CompressionFormat::Gzip;
use ouch::extension::CompressionFormat::Lz;
use ouch::extension::CompressionFormat::Lzma;
use ouch::extension::CompressionFormat::Tar;
use ouch::extension::CompressionFormat::Xz;
use ouch::extension::CompressionFormat::Zip;
use ouch::extension::CompressionFormat::Zstd;

fn chain_of(name: &str) -> Vec<CompressionFormat> {
    parse_extension_chain(name)
}

#[test]
fn single_tokens_map_to_their_formats() {
    assert_eq!(chain_of("a.tar"), vec![Tar]);
    assert_eq!(chain_of("a.zip"), vec![Zip]);
    assert_eq!(chain_of("a.gz"), vec![Gzip]);
    assert_eq!(chain_of("a.bz"), vec![Bzip]);
    assert_eq!(chain_of("a.bz2"), vec![Bzip2]);
    assert_eq!(chain_of("a.xz"), vec![Xz]);
    assert_eq!(chain_of("a.lzma"), vec![Lzma]);
    assert_eq!(chain_of("a.lz"), vec![Lz]);
    assert_eq!(chain_of("a.zst"), vec![Zstd]);
}

#[test]
fn lzma_and_xz_stay_distinct() {
    assert_ne!(chain_of("a.lzma"), chain_of("a.xz"));
    assert_eq!(chain_of("a.lzma"), vec![Lzma]);
    assert_eq!(chain_of("a.xz"), vec![Xz]);
}

#[test]
fn stacked_stream_codecs_chain_without_bound() {
    assert_eq!(
        chain_of("x.tar.gz.bz.xz.zst.gz.bz"),
        vec![Bzip, Gzip, Zstd, Xz, Bzip, Gzip, Tar]
    );
}

#[test]
fn each_format_combination_parses() {
    assert_eq!(chain_of("files.tar"), vec![Tar]);
    assert_eq!(chain_of("files.tar.gz"), vec![Gzip, Tar]);
    assert_eq!(chain_of("files.tar.bz"), vec![Bzip, Tar]);
    assert_eq!(chain_of("files.tar.bz2"), vec![Bzip2, Tar]);
    assert_eq!(chain_of("files.tar.xz"), vec![Xz, Tar]);
    assert_eq!(chain_of("files.tar.lz"), vec![Lz, Tar]);
    assert_eq!(chain_of("files.tar.lzma"), vec![Lzma, Tar]);
    assert_eq!(chain_of("files.tar.zst"), vec![Zstd, Tar]);
    assert_eq!(chain_of("files.zip"), vec![Zip]);
    assert_eq!(chain_of("files.zip.gz"), vec![Gzip, Zip]);
    assert_eq!(chain_of("files.zip.bz"), vec![Bzip, Zip]);
    assert_eq!(chain_of("files.zip.bz2"), vec![Bzip2, Zip]);
    assert_eq!(chain_of("files.zip.xz"), vec![Xz, Zip]);
    assert_eq!(chain_of("files.zip.lz"), vec![Lz, Zip]);
    assert_eq!(chain_of("files.zip.lzma"), vec![Lzma, Zip]);
    assert_eq!(chain_of("files.zip.zst"), vec![Zstd, Zip]);
}

#[test]
fn round_trip_of_a_built_name() {
    // Chain [Lzma, Tar], outermost first, written inner-to-outer after the
    // base name.
    assert_eq!(chain_of("mygame.tar.lzma"), vec![Lzma, Tar]);
    // Chain of stream codecs over a clean base.
    assert_eq!(chain_of("data.gz.zst"), vec![Zstd, Gzip]);
}

#[test]
fn archive_token_closes_the_chain() {
    // The rightmost archive token is accepted as innermost; whatever stands
    // left of it joins the base name.
    assert_eq!(chain_of("filename.tar.zip"), vec![Zip]);
    assert_eq!(chain_of("file.gz.tar"), vec![Tar]);
    assert_eq!(chain_of("file.zip.gz"), vec![Gzip, Zip]);
}

#[test]
fn unrecognized_token_ends_the_parse() {
    assert_eq!(chain_of("photo.jpeg"), vec![]);
    assert_eq!(chain_of("site.backup.tar.gz"), vec![Gzip, Tar]);
}

#[test]
fn name_without_dots_has_no_extension() {
    assert_eq!(chain_of("archive"), vec![]);
    assert_eq!(File::from("archive").extension, None);
}

#[test]
fn extension_from_single_format() {
    assert_eq!(Extension::from(Zip).formats, vec![Zip]);
    assert_eq!(Extension::from(Gzip).formats, vec![Gzip]);
}

#[test]
fn file_descriptor_normalizes_trailing_separators() {
    assert_eq!(
        File::from("folder//"),
        File {
            path: "folder".into(),
            extension: None
        }
    );
}

#[test]
fn extension_is_read_from_the_final_component() {
    let f = File::from("some.dir/archive.tar.gz");
    assert_eq!(f.path, "some.dir/archive.tar.gz".to_string());
    assert_eq!(f.extension.unwrap().formats, vec![Gzip, Tar]);

    // A dot inside a directory name is no extension.
    assert_eq!(File::from("some.tar/file").extension, None);
}

#[test]
fn try_from_reports_missing_and_unknown_extensions() {
    assert_eq!(
        CompressionFormat::try_from("noext"),
        Err(Error::MissingExtensionError("noext".into()))
    );
    assert_eq!(
        CompressionFormat::try_from("file.jpeg"),
        Err(Error::UnknownExtensionError("file.jpeg".into()))
    );
}
