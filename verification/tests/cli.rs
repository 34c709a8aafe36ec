use ouch::cli::Command;
use ouch::cli::CommandKind;
use ouch::error::Error;
use ouch::error::OuchResult;
use ouch::extension::CompressionFormat;
use ouch::extension::Extension;
use ouch::file::File;

#[test]
fn decompress_files_into_folder() -> OuchResult<()> {
    let command_from_matches = Command::try_from(
        vec!["file.zip".to_string()],
        Some("folder/".to_string()),
    )?;

    assert_eq!(
        command_from_matches,
        Command {
            kind: CommandKind::Decompression(vec![File {
                path: "file.zip".into(),
                extension: Some(Extension::from(CompressionFormat::Zip))
            }]),
            output: Some(File {
                path: "folder".into(),
                extension: None
            }),
        }
    );

    Ok(())
}

#[test]
fn decompress_files() -> OuchResult<()> {
    let command_from_matches = Command::try_from(
        vec!["file.zip".to_string(), "file.tar".to_string()],
        None,
    )?;

    assert_eq!(
        command_from_matches,
        Command {
            kind: CommandKind::Decompression(vec![
                File {
                    path: "file.zip".into(),
                    extension: Some(Extension::from(CompressionFormat::Zip))
                },
                File {
                    path: "file.tar".into(),
                    extension: Some(Extension::from(CompressionFormat::Tar))
                }
            ]),
            output: None,
        }
    );

    Ok(())
}

#[test]
fn compress_files() -> OuchResult<()> {
    let command_from_matches = Command::try_from(
        vec![
            "file".to_string(),
            "file2.jpeg".to_string(),
            "file3.ok".to_string(),
        ],
        Some("file.tar".to_string()),
    )?;

    assert_eq!(
        command_from_matches,
        Command {
            kind: CommandKind::Compression(vec![
                "file".into(),
                "file2.jpeg".into(),
                "file3.ok".into()
            ]),
            output: Some(File {
                path: "file.tar".into(),
                extension: Some(Extension::from(CompressionFormat::Tar))
            }),
        }
    );

    Ok(())
}

#[test]
fn test_compress_files() -> OuchResult<()> {
    let res = Command::try_from(
        vec![
            "a_file".to_string(),
            "file2.jpeg".to_string(),
            "file3.ok".to_string(),
        ],
        None,
    );

    assert_eq!(
        res,
        Err(Error::InputsMustHaveBeenDecompressible("a_file".into()))
    );

    Ok(())
}
