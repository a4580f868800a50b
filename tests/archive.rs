use rpgm_translation::archive::{extract_files, ArchiveError};
use rpgmad_lib::{ArchiveEntry, Decrypter, Engine};

fn pack(entries: &[ArchiveEntry], engine: Engine) -> Vec<u8> {
    let size = Decrypter::encrypted_buffer_size(entries, engine);
    let mut buffer = vec![0u8; size];
    Decrypter::new().encrypt(entries, engine, &mut buffer).unwrap();
    buffer
}

#[test]
fn packed_files_come_back() {
    let entries = [
        ArchiveEntry { path: b"Data/Map001.rvdata2", data: b"map bytes" },
        ArchiveEntry { path: b"Graphics/a.png", data: b"\x89PNG" },
    ];
    let archive = pack(&entries, Engine::VXAce);
    let files = match extract_files(archive.clone()) {
        Ok(files) => files,
        Err(_) => panic!("a packed archive decrypts"),
    };
    assert_eq!(files.len(), 2);
    assert_eq!(files[0].path, b"Data/Map001.rvdata2".to_vec());
    assert_eq!(files[0].data, b"map bytes".to_vec());
    assert_eq!(files[1].path, b"Graphics/a.png".to_vec());
    assert_ne!(files[0].data, archive);
}

#[test]
fn older_engine_archive_unpacks() {
    let entries = [ArchiveEntry { path: b"Data/System.rxdata", data: b"system" }];
    let files = match extract_files(pack(&entries, Engine::Older)) {
        Ok(files) => files,
        Err(_) => panic!("a packed archive decrypts"),
    };
    assert_eq!(files.len(), 1);
    assert_eq!(files[0].data, b"system".to_vec());
}

#[test]
fn garbage_is_not_an_archive() {
    assert!(matches!(extract_files(b"definitely not an archive".to_vec()), Err(ArchiveError::Unreadable(_))));
    assert!(matches!(extract_files(Vec::new()), Err(ArchiveError::Unreadable(_))));
}
