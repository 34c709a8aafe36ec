use ouch::error::OuchResult;
use ouch::extension::CompressionFormat;

#[test]
fn zip() -> OuchResult<()> {
    assert_eq!(
        CompressionFormat::try_from("filename.tar.zip")?,
        CompressionFormat::Zip
    );

    Ok(())
}

#[test]
fn tar() -> OuchResult<()> {
    assert_eq!(
        CompressionFormat::try_from("pictures.tar")?,
        CompressionFormat::Tar
    );

    Ok(())
}

#[test]
fn gz() -> OuchResult<()> {
    assert_eq!(
        CompressionFormat::try_from("passwords.tar.gz")?,
        CompressionFormat::Gzip
    );

    Ok(())
}

#[test]
fn lzma() -> OuchResult<()> {
    assert_eq!(
        CompressionFormat::try_from("mygame.tar.lzma")?,
        CompressionFormat::Lzma
    );

    Ok(())
}

#[test]
fn bz() -> OuchResult<()> {
    assert_eq!(
        CompressionFormat::try_from("songs.tar.bz")?,
        CompressionFormat::Bzip
    );

    Ok(())
}
