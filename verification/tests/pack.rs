use i6::pack::aes256_gcm::Aes256Gcm;
use i6::pack::cli::{plan_run, plan_run_with, PackStep};
use i6::pack::compression::{
    compress_tar_bytes, decompress_bytes, extraction_dir, fresh_extraction_dir, tar_entry, TarEntry,
};
use i6::pack::encryption::Encryption;
use i6::pack::utils::{remove_extension, sanitize_output_path, target_path, validate_path, PathError};
use i6::pack::PackError;

#[test]
fn remove_extension_cases() {
    assert_eq!(remove_extension("dir.i6p", ".i6p"), "dir");
    assert_eq!(remove_extension("dir.i6pe", ".i6p"), "dir.i6pe");
    assert_eq!(remove_extension("x", ".longer"), "x");
    assert_eq!(remove_extension("same", ""), "same");
}

#[test]
fn validate_path_cases() {
    assert_eq!(validate_path("a/b", true).unwrap(), "a/b");
    assert_eq!(validate_path("a/b", false).unwrap_err(), PathError::NotFound);
    assert_eq!(PathError::NotFound.message(), "Path does not exist");
}

#[test]
fn sanitize_output_path_cases() {
    assert_eq!(sanitize_output_path("/tmp/out").unwrap(), "/tmp/out");
    assert_eq!(sanitize_output_path("relative/out").unwrap_err(), PathError::InvalidInput);
    assert_eq!(sanitize_output_path("/tmp/../etc").unwrap_err(), PathError::InvalidInput);
    assert_eq!(sanitize_output_path("/tmp/..x/./y").unwrap(), "/tmp/..x/./y");
    assert_eq!(sanitize_output_path("").unwrap_err(), PathError::InvalidInput);
    assert_eq!(PathError::InvalidInput.message(), "Invalid output path");
}

#[test]
fn compression_round_trip() {
    let data: Vec<u8> = (0..5000u32).map(|i| (i % 251) as u8).collect();
    let packed = compress_tar_bytes(&data).unwrap();
    assert_ne!(packed, data);
    assert!(packed.len() < data.len());
    assert_eq!(decompress_bytes(&packed).unwrap(), data);
}

#[test]
fn decompress_rejects_garbage() {
    assert_eq!(
        decompress_bytes(b"not zstd").unwrap_err(),
        PackError::DecompressionFailure("Unknown frame descriptor".to_string())
    );
    assert_eq!(
        PackError::DecompressionFailure("Unknown frame descriptor".to_string()).message(),
        "Unknown frame descriptor"
    );
}

#[test]
fn encryption_round_trip() {
    let plaintext = b"the folder contents".to_vec();
    let data = Aes256Gcm::encrypt_bytes(&plaintext, "secret").unwrap();
    assert_eq!(data.len(), 16 + 12 + plaintext.len() + 16);
    assert_ne!(&data[28..28 + plaintext.len()], &plaintext[..]);
    assert_eq!(Aes256Gcm::decrypt_bytes(&data, "secret").unwrap(), plaintext);
}

#[test]
fn decryption_with_wrong_password_fails() {
    let data = Aes256Gcm::encrypt_bytes(b"abc", "right").unwrap();
    assert_eq!(Aes256Gcm::decrypt_bytes(&data, "wrong").unwrap_err(), PackError::DecryptionFailure);
    assert_eq!(PackError::DecryptionFailure.message(), "Decryption failure");
}

#[test]
fn encrypt_with_fixed_salt_and_nonce_is_deterministic() {
    let salt = [7u8; 16];
    let nonce = [9u8; 12];
    let a = Aes256Gcm::encrypt_with(b"xyz", "pw", &salt, &nonce).unwrap();
    let b = Aes256Gcm::encrypt_with(b"xyz", "pw", &salt, &nonce).unwrap();
    assert_eq!(a, b);
    assert_eq!(&a[..16], &salt[..]);
    assert_eq!(&a[16..28], &nonce[..]);
    assert_eq!(Aes256Gcm::decrypt_bytes(&a, "pw").unwrap(), b"xyz".to_vec());
}

fn describe(steps: &[PackStep]) -> Vec<String> {
    steps
        .iter()
        .map(|s| match s {
            PackStep::CreateTarArchive { folder, tar_file } => format!("tar {} {}", folder, tar_file),
            PackStep::CompressTarFile { tar_file, compressed_file } => {
                format!("compress {} {}", tar_file, compressed_file)
            }
            PackStep::EncryptFile { input_file, output_file } => {
                format!("encrypt {} {}", input_file, output_file)
            }
            PackStep::DecryptFile { input_file, output_file } => {
                format!("decrypt {} {}", input_file, output_file)
            }
            PackStep::DecompressFile { compressed_file, output_file } => {
                format!("decompress {} {}", compressed_file, output_file)
            }
            PackStep::ExtractTarArchive { tar_file, output_dir } => {
                format!("extract {} {}", tar_file, output_dir)
            }
            PackStep::RemoveFile { path } => format!("remove {}", path),
        })
        .collect()
}

#[test]
fn plan_pack_plain() {
    let steps = plan_run_with("pack", "data", "", "T", "Z").unwrap();
    assert_eq!(
        describe(&steps),
        vec!["tar data data-T.tar", "compress data-T.tar data.i6p", "remove data-T.tar"]
    );
}

#[test]
fn plan_pack_encrypted() {
    let steps = plan_run_with("pack", "data", "pw", "T", "Z").unwrap();
    assert_eq!(
        describe(&steps),
        vec![
            "tar data data-T.tar",
            "compress data-T.tar data-Z.tar.zst",
            "encrypt data-Z.tar.zst data.i6pe",
            "remove data-T.tar",
            "remove data-Z.tar.zst",
        ]
    );
}

#[test]
fn plan_unpack_both_ways() {
    let steps = plan_run_with("unpack", "data.i6p", "", "T", "Z").unwrap();
    assert_eq!(
        describe(&steps),
        vec![
            "decompress data.i6p data.i6p-T.tar",
            "extract data.i6p-T.tar data",
            "remove data.i6p-T.tar",
        ]
    );
    let steps = plan_run_with("unpack", "data.i6pe", "pw", "T", "Z").unwrap();
    assert_eq!(
        describe(&steps),
        vec![
            "decrypt data.i6pe data.i6pe-Z.tar.zst",
            "decompress data.i6pe-Z.tar.zst data.i6pe-T.tar",
            "extract data.i6pe-T.tar data",
            "remove data.i6pe-T.tar",
            "remove data.i6pe-Z.tar.zst",
        ]
    );
}

#[test]
fn plan_invalid_action() {
    assert_eq!(plan_run("zip", "data", "").unwrap_err(), PackError::InvalidAction);
    assert_eq!(
        PackError::InvalidAction.message(),
        "Invalid action. Use 'pack' or 'unpack'."
    );
}

#[test]
fn plan_run_uses_fresh_names() {
    let steps = plan_run("pack", "d", "").unwrap();
    match &steps[0] {
        PackStep::CreateTarArchive { folder, tar_file } => {
            assert_eq!(folder, "d");
            assert_eq!(tar_file.len(), "d-".len() + 36 + ".tar".len());
            assert!(tar_file.starts_with("d-") && tar_file.ends_with(".tar"));
            let id: Vec<char> = tar_file["d-".len()..tar_file.len() - ".tar".len()].chars().collect();
            for (i, c) in id.iter().enumerate() {
                if i == 8 || i == 13 || i == 18 || i == 23 {
                    assert_eq!(*c, '-');
                } else {
                    assert!(c.is_ascii_hexdigit() && !c.is_ascii_uppercase());
                }
            }
            assert_eq!(id[14], '4');
            assert!(matches!(id[19], '8' | '9' | 'a' | 'b'));
        }
        _ => panic!("expected tar"),
    }
}

#[test]
fn extraction_dir_cases() {
    assert_eq!(extraction_dir("out", false, "u"), "out");
    assert_eq!(extraction_dir("out", true, "u"), "out-u");
}

#[test]
fn unpacking_a_packed_archive_restores_the_folder_name() {
    for password in ["", "pw"] {
        let packed = plan_run_with("pack", "/tmp/site", password, "A", "B").unwrap();
        let archive = match packed.iter().find_map(|s| match s {
            PackStep::EncryptFile { output_file, .. } => Some(output_file.clone()),
            PackStep::CompressTarFile { compressed_file, .. } if !compressed_file.ends_with(".zst") => {
                Some(compressed_file.clone())
            }
            _ => None,
        }) {
            Some(a) => a,
            None => panic!("no archive"),
        };
        let unpacked = plan_run_with("unpack", &archive, password, "C", "D").unwrap();
        assert!(unpacked.iter().any(|s| matches!(
            s,
            PackStep::ExtractTarArchive { output_dir, .. } if output_dir == "/tmp/site"
        )));
    }
}

#[test]
fn encryption_uses_fresh_salt_and_nonce() {
    let a = Aes256Gcm::encrypt_bytes(b"same", "pw").unwrap();
    let b = Aes256Gcm::encrypt_bytes(b"same", "pw").unwrap();
    assert_ne!(a[..28], b[..28]);
    assert_eq!(Aes256Gcm::decrypt_bytes(&b, "pw").unwrap(), b"same".to_vec());
}

#[test]
fn target_path_cases() {
    assert_eq!(target_path("rel", true).unwrap(), "rel");
    assert_eq!(target_path("/abs/new", false).unwrap(), "/abs/new");
    assert_eq!(target_path("rel", false).unwrap_err(), PathError::InvalidInput);
}

#[test]
fn encrypted_form_is_salt_nonce_and_tagged_ciphertext() {
    let data = Aes256Gcm::encrypt_bytes(b"hello", "pw").unwrap();
    assert_eq!(data.len(), 16 + 12 + 5 + 16);
}

#[test]
fn packed_bytes_come_back() {
    let tar = b"some tar bytes, some tar bytes".to_vec();
    let packed = Aes256Gcm::encrypt_bytes(&compress_tar_bytes(&tar).unwrap(), "pw").unwrap();
    let unpacked = decompress_bytes(&Aes256Gcm::decrypt_bytes(&packed, "pw").unwrap()).unwrap();
    assert_eq!(unpacked, tar);
}

#[test]
fn fresh_extraction_dir_cases() {
    assert_eq!(fresh_extraction_dir("out", false), "out");
    let d = fresh_extraction_dir("out", true);
    assert!(d.starts_with("out-"));
    assert_eq!(d.len(), "out-".len() + 36);
    assert_eq!(&d[4 + 14..4 + 15], "4");
}

#[test]
fn tar_entry_choices() {
    assert_eq!(tar_entry(true, Some(true), false), TarEntry::AppendLinkTarget);
    assert_eq!(tar_entry(true, Some(false), true), TarEntry::SkipMissingLinkTarget);
    assert_eq!(tar_entry(true, None, true), TarEntry::SkipUnreadableLink);
    assert_eq!(tar_entry(false, None, true), TarEntry::AppendPath);
    assert_eq!(tar_entry(false, None, false), TarEntry::SkipMissing);
}
