//! What `pack` and `unpack` do, step by step.
//!
//! Packing a folder `t` writes the archive `t.i6p`, or `t.i6pe` when a
//! password is given: the folder is put into a tar file, which is compressed
//! and, with a password, encrypted. Unpacking reverses the steps and unfolds
//! the archive into `t` with the extension taken off. Temporary files carry a
//! fresh name and are removed at the end.

use vstd::prelude::*;
use super::PackError;
use super::utils::{remove_extension, remove_extension_spec};

verus! {

/// One step of packing or unpacking, carried out by the caller in order.
#[derive(Debug)]
pub enum PackStep {
    /// Put the folder into a tar file.
    CreateTarArchive { folder: String, tar_file: String },
    /// Compress the tar file.
    CompressTarFile { tar_file: String, compressed_file: String },
    /// Encrypt a file with the password.
    EncryptFile { input_file: String, output_file: String },
    /// Decrypt a file with the password.
    DecryptFile { input_file: String, output_file: String },
    /// Decompress a file.
    DecompressFile { compressed_file: String, output_file: String },
    /// Unfold the tar file into the directory.
    ExtractTarArchive { tar_file: String, output_dir: String },
    /// Remove a temporary file.
    RemoveFile { path: String },
}

/// The mathematical content of a [`PackStep`].
pub enum PackStepView {
    CreateTarArchive { folder: Seq<char>, tar_file: Seq<char> },
    CompressTarFile { tar_file: Seq<char>, compressed_file: Seq<char> },
    EncryptFile { input_file: Seq<char>, output_file: Seq<char> },
    DecryptFile { input_file: Seq<char>, output_file: Seq<char> },
    DecompressFile { compressed_file: Seq<char>, output_file: Seq<char> },
    ExtractTarArchive { tar_file: Seq<char>, output_dir: Seq<char> },
    RemoveFile { path: Seq<char> },
}

impl View for PackStep {
    type V = PackStepView;

    open spec fn view(&self) -> PackStepView {
        match self {
            PackStep::CreateTarArchive { folder, tar_file } => PackStepView::CreateTarArchive {
                folder: folder@,
                tar_file: tar_file@,
            },
            PackStep::CompressTarFile { tar_file, compressed_file } =>
                PackStepView::CompressTarFile {
                tar_file: tar_file@,
                compressed_file: compressed_file@,
            },
            PackStep::EncryptFile { input_file, output_file } => PackStepView::EncryptFile {
                input_file: input_file@,
                output_file: output_file@,
            },
            PackStep::DecryptFile { input_file, output_file } => PackStepView::DecryptFile {
                input_file: input_file@,
                output_file: output_file@,
            },
            PackStep::DecompressFile { compressed_file, output_file } =>
                PackStepView::DecompressFile {
                compressed_file: compressed_file@,
                output_file: output_file@,
            },
            PackStep::ExtractTarArchive { tar_file, output_dir } =>
                PackStepView::ExtractTarArchive { tar_file: tar_file@, output_dir: output_dir@ },
            PackStep::RemoveFile { path } => PackStepView::RemoveFile { path: path@ },
        }
    }
}

/// The views of a sequence of steps.
pub open spec fn steps_view(s: Seq<PackStep>) -> Seq<PackStepView> {
    s.map_values(|p: PackStep| p@)
}

/// A password encrypts when it is not empty.
pub open spec fn encrypts(password: Seq<char>) -> bool {
    password.len() > 0
}

/// The extension of an archive, with its dot: `.i6pe` when encrypted, else
/// `.i6p`.
pub open spec fn archive_extension(password: Seq<char>) -> Seq<char> {
    if encrypts(password) {
        seq!['.', 'i', '6', 'p', 'e']
    } else {
        seq!['.', 'i', '6', 'p']
    }
}

/// The archive that packing `target` writes.
pub open spec fn archive_name(target: Seq<char>, password: Seq<char>) -> Seq<char> {
    target + archive_extension(password)
}

/// The temporary tar file: `target-<id>.tar`.
pub open spec fn tar_name(target: Seq<char>, id: Seq<char>) -> Seq<char> {
    target + seq!['-'] + id + seq!['.', 't', 'a', 'r']
}

/// The temporary compressed file: `target-<id>.tar.zst`.
pub open spec fn compressed_name(target: Seq<char>, id: Seq<char>) -> Seq<char> {
    target + seq!['-'] + id + seq!['.', 't', 'a', 'r', '.', 'z', 's', 't']
}

/// The steps of `pack` and `unpack` on `target`, with `tar_id` and `zst_id`
/// naming the temporary files; `None` for any other action.
pub open spec fn plan_spec(
    action: Seq<char>,
    target: Seq<char>,
    password: Seq<char>,
    tar_id: Seq<char>,
    zst_id: Seq<char>,
) -> Option<Seq<PackStepView>> {
    let tar = tar_name(target, tar_id);
    let zst = compressed_name(target, zst_id);
    let out = archive_name(target, password);
    let cleanup = if encrypts(password) {
        seq![PackStepView::RemoveFile { path: tar }, PackStepView::RemoveFile { path: zst }]
    } else {
        seq![PackStepView::RemoveFile { path: tar }]
    };
    if action == seq!['p', 'a', 'c', 'k'] {
        Some(
            seq![PackStepView::CreateTarArchive { folder: target, tar_file: tar }] + (if encrypts(
                password,
            ) {
                seq![
                    PackStepView::CompressTarFile { tar_file: tar, compressed_file: zst },
                    PackStepView::EncryptFile { input_file: zst, output_file: out },
                ]
            } else {
                seq![PackStepView::CompressTarFile { tar_file: tar, compressed_file: out }]
            }) + cleanup,
        )
    } else if action == seq!['u', 'n', 'p', 'a', 'c', 'k'] {
        Some(
            (if encrypts(password) {
                seq![
                    PackStepView::DecryptFile { input_file: target, output_file: zst },
                    PackStepView::DecompressFile { compressed_file: zst, output_file: tar },
                ]
            } else {
                seq![PackStepView::DecompressFile { compressed_file: target, output_file: tar }]
            }) + seq![
                PackStepView::ExtractTarArchive {
                    tar_file: tar,
                    output_dir: remove_extension_spec(target, archive_extension(password)),
                },
            ] + cleanup,
        )
    } else {
        None
    }
}

/// Whether `c` is a lowercase hexadecimal digit.
pub open spec fn is_lower_hex(c: char) -> bool {
    ('0' <= c <= '9') || ('a' <= c <= 'f')
}

/// The text of a random (version 4, RFC 4122 variant) UUID in hyphenated
/// lowercase form, such as `67e55044-10b1-426f-9247-bb680e5fe0c8`.
pub open spec fn is_uuid_v4_text(s: Seq<char>) -> bool {
    &&& s.len() == 36
    &&& forall|i: int|
        0 <= i < 36 ==> if i == 8 || i == 13 || i == 18 || i == 23 {
            #[trigger] s[i] == '-'
        } else {
            is_lower_hex(s[i])
        }
    &&& s[14] == '4'
    &&& (s[19] == '8' || s[19] == '9' || s[19] == 'a' || s[19] == 'b')
}

/// Calls `uuid::Uuid::new_v4` and writes it out with `to_string`: a random
/// version-4 UUID in hyphenated lowercase form. Which UUID comes out is left
/// open (it is random).
#[verifier::external_body]
pub(crate) fn new_uuid() -> (r: String)
    ensures
        is_uuid_v4_text(r@),
{
    uuid::Uuid::new_v4().to_string()
}

/// `a` followed by `b`.
fn concat(a: &str, b: &str) -> (r: String)
    ensures
        r@ == a@ + b@,
{
    let mut r = String::from_str(a);
    r.append(b);
    r
}

/// The steps of `action` on `target` (see [`plan_spec`]).
pub fn plan_run_with(action: &str, target: &str, password: &str, tar_id: &str, zst_id: &str) -> (r:
    Result<Vec<PackStep>, PackError>)
    ensures
        match plan_spec(action@, target@, password@, tar_id@, zst_id@) {
            Some(steps) => r matches Ok(v) && steps_view(v@) == steps,
            None => r == Err::<Vec<PackStep>, PackError>(PackError::InvalidAction),
        },
{
    proof {
        reveal_strlit("pack");
        reveal_strlit("unpack");
        reveal_strlit(".i6pe");
        reveal_strlit(".i6p");
        reveal_strlit("-");
        reveal_strlit(".tar");
        reveal_strlit(".tar.zst");
        assert("pack"@ == seq!['p', 'a', 'c', 'k']);
        assert("unpack"@ == seq!['u', 'n', 'p', 'a', 'c', 'k']);
        assert(".i6pe"@ == seq!['.', 'i', '6', 'p', 'e']);
        assert(".i6p"@ == seq!['.', 'i', '6', 'p']);
        assert("-"@ == seq!['-']);
        assert(".tar"@ == seq!['.', 't', 'a', 'r']);
        assert(".tar.zst"@ == seq!['.', 't', 'a', 'r', '.', 'z', 's', 't']);
    }
    let encrypt = password.unicode_len() > 0;
    let extension = if encrypt {
        String::from_str(".i6pe")
    } else {
        String::from_str(".i6p")
    };
    let base_tar = concat(target, "-");
    let base_tar = concat(base_tar.as_str(), tar_id);
    let tar_file = concat(base_tar.as_str(), ".tar");
    let base_zst = concat(target, "-");
    let base_zst = concat(base_zst.as_str(), zst_id);
    let compressed_file = concat(base_zst.as_str(), ".tar.zst");
    let file_out = concat(target, extension.as_str());
    assert(tar_file@ == tar_name(target@, tar_id@));
    assert(compressed_file@ == compressed_name(target@, zst_id@));
    assert(extension@ == archive_extension(password@));
    let is_pack = crate::text::str_eq(action, "pack");
    let is_unpack = crate::text::str_eq(action, "unpack");
    let mut steps: Vec<PackStep> = Vec::new();
    if is_pack {
        steps.push(
            PackStep::CreateTarArchive { folder: String::from_str(target), tar_file: tar_file.clone() },
        );
        if encrypt {
            steps.push(
                PackStep::CompressTarFile {
                    tar_file: tar_file.clone(),
                    compressed_file: compressed_file.clone(),
                },
            );
            steps.push(
                PackStep::EncryptFile { input_file: compressed_file.clone(), output_file: file_out },
            );
        } else {
            steps.push(PackStep::CompressTarFile { tar_file: tar_file.clone(), compressed_file: file_out });
        }
    } else if is_unpack {
        if encrypt {
            steps.push(
                PackStep::DecryptFile {
                    input_file: String::from_str(target),
                    output_file: compressed_file.clone(),
                },
            );
            steps.push(
                PackStep::DecompressFile {
                    compressed_file: compressed_file.clone(),
                    output_file: tar_file.clone(),
                },
            );
        } else {
            steps.push(
                PackStep::DecompressFile {
                    compressed_file: String::from_str(target),
                    output_file: tar_file.clone(),
                },
            );
        }
        let output_dir = remove_extension(target, extension.as_str());
        steps.push(PackStep::ExtractTarArchive { tar_file: tar_file.clone(), output_dir });
    } else {
        return Err(PackError::InvalidAction);
    }
    steps.push(PackStep::RemoveFile { path: tar_file });
    if encrypt {
        steps.push(PackStep::RemoveFile { path: compressed_file });
    }
    proof {
        let tar = tar_name(target@, tar_id@);
        let zst = compressed_name(target@, zst_id@);
        let out = archive_name(target@, password@);
        let expected = plan_spec(action@, target@, password@, tar_id@, zst_id@)->Some_0;
        let v = steps_view(steps@);
        if is_pack {
            if encrypt {
                assert(v == seq![
                    PackStepView::CreateTarArchive { folder: target@, tar_file: tar },
                    PackStepView::CompressTarFile { tar_file: tar, compressed_file: zst },
                    PackStepView::EncryptFile { input_file: zst, output_file: out },
                    PackStepView::RemoveFile { path: tar },
                    PackStepView::RemoveFile { path: zst },
                ]);
            } else {
                assert(v == seq![
                    PackStepView::CreateTarArchive { folder: target@, tar_file: tar },
                    PackStepView::CompressTarFile { tar_file: tar, compressed_file: out },
                    PackStepView::RemoveFile { path: tar },
                ]);
            }
        } else {
            let dir = remove_extension_spec(target@, archive_extension(password@));
            if encrypt {
                assert(v == seq![
                    PackStepView::DecryptFile { input_file: target@, output_file: zst },
                    PackStepView::DecompressFile { compressed_file: zst, output_file: tar },
                    PackStepView::ExtractTarArchive { tar_file: tar, output_dir: dir },
                    PackStepView::RemoveFile { path: tar },
                    PackStepView::RemoveFile { path: zst },
                ]);
            } else {
                assert(v == seq![
                    PackStepView::DecompressFile { compressed_file: target@, output_file: tar },
                    PackStepView::ExtractTarArchive { tar_file: tar, output_dir: dir },
                    PackStepView::RemoveFile { path: tar },
                ]);
            }
        }
        assert(v == expected);
    }
    Ok(steps)
}

/// The steps of `action` on `target`, with fresh names for the temporary
/// files: what [`plan_run_with`] gives for two fresh UUIDs.
pub fn plan_run(action: &str, target: &str, password: &str) -> (r: Result<Vec<PackStep>, PackError>)
    ensures
        plan_spec(action@, target@, password@, seq![], seq![]) is None ==> r == Err::<
            Vec<PackStep>,
            PackError,
        >(PackError::InvalidAction),
        plan_spec(action@, target@, password@, seq![], seq![]) is Some ==> exists|
            tar_id: Seq<char>,
            zst_id: Seq<char>,
        |
            is_uuid_v4_text(tar_id) && is_uuid_v4_text(zst_id) && (r matches Ok(v) && steps_view(v@)
                == plan_spec(action@, target@, password@, tar_id, zst_id)->Some_0),
{
    let tar_id = new_uuid();
    let zst_id = new_uuid();
    plan_run_with(action, target, password, tar_id.as_str(), zst_id.as_str())
}

/// Unpacking the archive that packing a folder wrote unfolds it into a
/// directory of the folder's name.
pub proof fn lemma_unpack_restores_folder_name(
    target: Seq<char>,
    password: Seq<char>,
    ids: (Seq<char>, Seq<char>, Seq<char>, Seq<char>),
)
    ensures
        ({
            let packed = plan_spec(seq!['p', 'a', 'c', 'k'], target, password, ids.0, ids.1)->Some_0;
            let archive = archive_name(target, password);
            let unpacked = plan_spec(
                seq!['u', 'n', 'p', 'a', 'c', 'k'],
                archive,
                password,
                ids.2,
                ids.3,
            )->Some_0;
            &&& packed.contains(
                if encrypts(password) {
                    PackStepView::EncryptFile {
                        input_file: compressed_name(target, ids.1),
                        output_file: archive,
                    }
                } else {
                    PackStepView::CompressTarFile {
                        tar_file: tar_name(target, ids.0),
                        compressed_file: archive,
                    }
                },
            )
            &&& unpacked.contains(
                PackStepView::ExtractTarArchive {
                    tar_file: tar_name(archive, ids.2),
                    output_dir: target,
                },
            )
        }),
{
    let archive = archive_name(target, password);
    let ext = archive_extension(password);
    assert(archive.subrange(archive.len() - ext.len(), archive.len() as int) == ext);
    assert(archive.subrange(0, archive.len() - ext.len()) == target);
    assert(remove_extension_spec(archive, ext) == target);
    let packed = plan_spec(seq!['p', 'a', 'c', 'k'], target, password, ids.0, ids.1)->Some_0;
    let unpacked = plan_spec(seq!['u', 'n', 'p', 'a', 'c', 'k'], archive, password, ids.2, ids.3)->Some_0;
    if encrypts(password) {
        assert(packed[2] == PackStepView::EncryptFile {
            input_file: compressed_name(target, ids.1),
            output_file: archive,
        });
        assert(unpacked[2] == PackStepView::ExtractTarArchive {
            tar_file: tar_name(archive, ids.2),
            output_dir: target,
        });
    } else {
        assert(packed[1] == PackStepView::CompressTarFile {
            tar_file: tar_name(target, ids.0),
            compressed_file: archive,
        });
        assert(unpacked[1] == PackStepView::ExtractTarArchive {
            tar_file: tar_name(archive, ids.2),
            output_dir: target,
        });
    }
}

} // verus!
