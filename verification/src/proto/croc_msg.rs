//! Control messages exchanged by the two clients once they are paired.

use vstd::prelude::*;
use vstd::string::StringSliceAdditionalSpecFns;

verus! {

/// One step of the key exchange: a serialized public key and either the
/// curve's name or the salt of the AEAD session.
#[derive(Debug)]
pub struct PakeMessage {
    pub bytes: Vec<u8>,
    pub bytes2: Vec<u8>,
}

/// The address under which the relay sees a client.
#[derive(Debug)]
pub struct ExternalIPMessage {
    pub external_ip: String,
}

/// The receiver's request for one file of the manifest.
#[derive(Debug, Clone)]
pub struct RemoteFileRequest {
    pub current_file_chunk_ranges: Vec<i64>,
    pub files_to_transfer_current_num: i64,
    pub machine_id: String,
}

/// One file, or one empty folder, of a manifest.
#[derive(Debug, Clone)]
pub struct FileInfo {
    pub name: String,
    pub remote_folder: String,
    pub source_folder: String,
    pub hash: Vec<u8>,
    pub size: i64,
    /// Modification time, RFC 3339.
    pub modification_time: String,
    pub is_compressed: bool,
    pub is_encrypted: bool,
    pub symlink: String,
    pub mode: u32,
    pub temp_file: bool,
}

/// The manifest that the sender announces before any file is moved.
#[derive(Debug, Clone)]
pub struct FilesInformation {
    pub files_to_transfare: Option<Vec<FileInfo>>,
    pub empty_folders_to_transfare: Option<Vec<FileInfo>>,
    pub total_folders_number: usize,
    pub machine_id: String,
    pub ask: bool,
    pub sending_text: bool,
    pub no_compress: bool,
    pub hash_algorithm: String,
}

/// A refusal or failure reported to the peer.
#[derive(Debug, Clone)]
pub struct TypeErrorMessage {
    pub message: String,
}

/// A control message, by its tag on the wire.
#[derive(Debug)]
pub enum Message {
    Pake(PakeMessage),
    ExternalIP(ExternalIPMessage),
    FilesInfo(FilesInformation),
    TypeRecipientReady(RemoteFileRequest),
    TypeError(TypeErrorMessage),
    Finished,
}

/// Sum of the declared sizes of `files`.
pub open spec fn sum_of_sizes(files: Seq<FileInfo>) -> int
    decreases files.len(),
{
    if files.len() == 0 {
        0
    } else {
        sum_of_sizes(files.drop_last()) + files.last().size
    }
}

/// Number of entries of an optional list, none counting as empty.
pub open spec fn count_of(list: Option<Vec<FileInfo>>) -> nat {
    match list {
        Some(v) => v@.len(),
        None => 0,
    }
}

/// Every partial sum of sizes lies within `len * 2^63` of zero.
proof fn lemma_sum_of_sizes_bounds(files: Seq<FileInfo>)
    ensures
        -(files.len() * 0x8000_0000_0000_0000) <= sum_of_sizes(files),
        sum_of_sizes(files) <= files.len() * 0x7fff_ffff_ffff_ffff,
    decreases files.len(),
{
    if files.len() > 0 {
        lemma_sum_of_sizes_bounds(files.drop_last());
    }
}

impl FilesInformation {
    /// Files plus empty folders of the manifest.
    pub open spec fn spec_total_items(&self) -> nat {
        count_of(self.files_to_transfare) + count_of(self.empty_folders_to_transfare)
    }

    /// Bytes of all files of the manifest together.
    pub open spec fn spec_total_size(&self) -> int {
        match self.files_to_transfare {
            Some(v) => sum_of_sizes(v@),
            None => 0,
        }
    }

    /// Whether both totals fit the machine integers that carry them.
    pub open spec fn totals_fit(&self) -> bool {
        &&& self.spec_total_items() <= usize::MAX
        &&& i64::MIN <= self.spec_total_size() <= i64::MAX
    }

    /// The sum of the declared sizes, in an integer wide enough for any
    /// manifest.
    fn wide_total_size(&self) -> (r: i128)
        ensures
            r == self.spec_total_size(),
    {
        let mut total: i128 = 0;
        match &self.files_to_transfare {
            Some(v) => {
                let mut i: usize = 0;
                while i < v.len()
                    invariant
                        i <= v.len(),
                        total == sum_of_sizes(v@.take(i as int)),
                    decreases v.len() - i,
                {
                    proof {
                        lemma_sum_of_sizes_bounds(v@.take(i as int));
                        assert(v@.take(i + 1).drop_last() =~= v@.take(i as int));
                    }
                    total = total + v[i].size as i128;
                    i = i + 1;
                }
                proof {
                    assert(v@.take(v.len() as int) =~= v@);
                }
            },
            None => {},
        }
        total
    }

    /// Both totals at once, or `None` where one of them does not fit its
    /// integer type.
    pub fn checked_totals(&self) -> (r: Option<(usize, i64)>)
        ensures
            r is Some <==> self.totals_fit(),
            r matches Some((items, size)) ==> items == self.spec_total_items() && size
                == self.spec_total_size(),
    {
        let n_files: usize = match &self.files_to_transfare {
            Some(v) => v.len(),
            None => 0,
        };
        let n_folders: usize = match &self.empty_folders_to_transfare {
            Some(v) => v.len(),
            None => 0,
        };
        let items: usize = match n_files.checked_add(n_folders) {
            Some(n) => n,
            None => { return None; },
        };
        let total = self.wide_total_size();
        if total < i64::MIN as i128 || total > i64::MAX as i128 {
            None
        } else {
            Some((items, total as i64))
        }
    }

    /// Number of files and empty folders announced.
    pub fn total_items(&self) -> (r: usize)
        requires
            self.spec_total_items() <= usize::MAX,
        ensures
            r == self.spec_total_items(),
    {
        let n_files: usize = match &self.files_to_transfare {
            Some(v) => v.len(),
            None => 0,
        };
        let n_folders: usize = match &self.empty_folders_to_transfare {
            Some(v) => v.len(),
            None => 0,
        };
        n_files + n_folders
    }

    /// Number of bytes that the announced files hold together.
    pub fn total_size(&self) -> (r: i64)
        requires
            i64::MIN <= self.spec_total_size() <= i64::MAX,
        ensures
            r == self.spec_total_size(),
    {
        self.wide_total_size() as i64
    }
}

impl PakeMessage {
    /// The key exchange message that carries a serialized public key and the
    /// name of the curve.
    pub fn new(pub_key: Vec<u8>, curve_type: &str) -> (r: Message)
        ensures
            r matches Message::Pake(m) && m.bytes == pub_key && m.bytes2@
                == curve_type.spec_bytes(),
    {
        let name = curve_type.as_bytes();
        let mut bytes2: Vec<u8> = Vec::new();
        let mut i: usize = 0;
        while i < name.len()
            invariant
                i <= name.len(),
                bytes2@ == name@.take(i as int),
            decreases name.len() - i,
        {
            bytes2.push(name[i]);
            proof {
                assert(bytes2@ =~= name@.take(i + 1));
            }
            i = i + 1;
        }
        proof {
            assert(name@.take(name.len() as int) =~= name@);
        }
        Message::Pake(PakeMessage { bytes: pub_key, bytes2 })
    }
}

/// Why a folder of the manifest is not created.
#[derive(Debug)]
pub enum FileOperationError {
    /// The folder lies outside the current directory.
    TraversalError(String),
    /// The folder exists and the user does not want it overwritten.
    OverwriteDenide,
}

/// What is to be done about a folder of the manifest.
#[derive(PartialEq, Eq, Structural, Clone, Copy, Debug)]
pub enum FolderStep {
    /// Create it.
    Create,
    /// It exists: ask the user whether to overwrite it, and decide again with
    /// the answer.
    AskOverwrite,
}

/// Whether the path with the components `path` lies in or under the one with
/// the components `base`.
pub open spec fn is_under(path: Seq<String>, base: Seq<String>) -> bool {
    base.len() <= path.len() && forall|i: int| 0 <= i < base.len() ==> path[i]@ == base[i]@
}

/// Whether the path with the components `path` lies in or under the one with
/// the components `base`.
pub fn path_is_under(path: &Vec<String>, base: &Vec<String>) -> (r: bool)
    ensures
        r == is_under(path@, base@),
{
    if base.len() > path.len() {
        return false;
    }
    let mut i: usize = 0;
    while i < base.len()
        invariant
            i <= base.len() <= path.len(),
            forall|k: int| 0 <= k < i ==> path@[k]@ == base@[k]@,
        decreases base.len() - i,
    {
        if path[i] != base[i] {
            return false;
        }
        i = i + 1;
    }
    true
}

/// What is to be done about a folder that lies under the current directory
/// or not, exists or not, and for which the user has or has not agreed to
/// overwrite it; nothing where the folder is refused.
pub open spec fn folder_step(under: bool, exists: bool, overwrite: Option<bool>) -> Option<
    FolderStep,
> {
    if !under {
        None
    } else if !exists {
        Some(FolderStep::Create)
    } else {
        match overwrite {
            None => Some(FolderStep::AskOverwrite),
            Some(true) => Some(FolderStep::Create),
            Some(false) => None,
        }
    }
}

impl FileInfo {
    /// Decides what becomes of this folder, whose absolute path has the
    /// components `path` and reads `path_text`: a folder outside the current
    /// directory is refused; one that exists is overwritten only if the user,
    /// whose answer is `overwrite` once it was asked for, agrees; any other is
    /// created.
    pub fn create_folder(
        &self,
        path: &Vec<String>,
        path_text: &str,
        current_dir: &Vec<String>,
        exists: bool,
        overwrite: Option<bool>,
    ) -> (r: Result<FolderStep, FileOperationError>)
        ensures
            r is Ok <==> folder_step(is_under(path@, current_dir@), exists, overwrite) is Some,
            r matches Ok(step) ==> Some(step) == folder_step(
                is_under(path@, current_dir@),
                exists,
                overwrite,
            ),
            r matches Err(e) ==> (if is_under(path@, current_dir@) {
                e is OverwriteDenide
            } else {
                e matches FileOperationError::TraversalError(text) && text@ == path_text@
            }),
    {
        if !path_is_under(path, current_dir) {
            return Err(FileOperationError::TraversalError(path_text.to_owned()));
        }
        if exists {
            match overwrite {
                None => Ok(FolderStep::AskOverwrite),
                Some(true) => Ok(FolderStep::Create),
                Some(false) => Err(FileOperationError::OverwriteDenide),
            }
        } else {
            Ok(FolderStep::Create)
        }
    }
}

} // verus!
