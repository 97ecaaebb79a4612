use std::io::{Cursor, Read, Write};
use ue4ss_installer::archive::download_ue4ss;
use ue4ss_installer::error::Error;
use zip::write::FileOptions;
use zip::{CompressionMethod, ZipWriter};

fn packed(entries: &[(&str, &[u8])], method: CompressionMethod) -> Vec<u8> {
    let mut writer = ZipWriter::new(Cursor::new(Vec::new()));
    let options = FileOptions::default().compression_method(method);
    for (name, content) in entries {
        if name.ends_with('/') {
            writer.add_directory(*name, options).unwrap();
        } else {
            writer.start_file(*name, options).unwrap();
            writer.write_all(content).unwrap();
        }
    }
    writer.finish().unwrap().into_inner()
}

#[test]
fn an_archive_is_opened_with_its_entries() {
    let bytes = packed(
        &[("UE4SS-settings.ini", b"[Debug]\nConsoleEnabled = 0\n"), ("Mods/", b""), ("Mods/mods.txt", b"BPModLoaderMod : 0\n")],
        CompressionMethod::Stored,
    );
    let mut archive = download_ue4ss(bytes).unwrap();
    assert_eq!(archive.len(), 3);
    let mut names: Vec<String> = archive.file_names().map(String::from).collect();
    names.sort();
    assert_eq!(names, vec!["Mods/", "Mods/mods.txt", "UE4SS-settings.ini"]);
    let mut content = String::new();
    archive.by_name("Mods/mods.txt").unwrap().read_to_string(&mut content).unwrap();
    assert_eq!(content, "BPModLoaderMod : 0\n");
}

#[test]
fn a_deflated_archive_is_opened() {
    let bytes = packed(&[("dwmapi.dll", &[7u8; 4096])], CompressionMethod::Deflated);
    assert!(bytes.len() < 4096);
    let mut archive = download_ue4ss(bytes).unwrap();
    let mut content = Vec::new();
    archive.by_index(0).unwrap().read_to_end(&mut content).unwrap();
    assert_eq!(content, vec![7u8; 4096]);
}

#[test]
fn the_opened_archive_reads_from_the_bytes_it_was_given() {
    let bytes = packed(&[("a.txt", b"alpha")], CompressionMethod::Stored);
    let archive = download_ue4ss(bytes.clone()).unwrap();
    assert_eq!(archive.into_inner().into_inner(), bytes);
}

#[test]
fn an_empty_archive_is_an_archive() {
    let bytes = packed(&[], CompressionMethod::Stored);
    assert_eq!(download_ue4ss(bytes).unwrap().len(), 0);
}

#[test]
fn bytes_that_are_no_archive_are_refused() {
    for bytes in [Vec::new(), b"<html>not found</html>".to_vec(), vec![0u8; 64]] {
        match download_ue4ss(bytes) {
            Err(Error::Zip(reason)) => assert!(reason.starts_with("invalid Zip archive")),
            other => panic!("expected a refusal, got {:?}", other.map(|archive| archive.len())),
        }
    }
}

#[test]
fn a_truncated_archive_is_refused() {
    let mut bytes = packed(&[("a.txt", b"alpha"), ("b.txt", b"beta")], CompressionMethod::Stored);
    bytes.truncate(bytes.len() - 10);
    assert!(matches!(download_ue4ss(bytes), Err(Error::Zip(_))));
}
