//! What extracting a ZIP archive writes: every file entry under its
//! sanitised path, the directory entries, and for a TCL Android OTA package
//! the partition dumper script and partition map made from its updater
//! script.

use vstd::prelude::*;
use crate::path_sanitize::{safe_output_path, spec_join, spec_sanitize_path};
use crate::script::{
    ActionModel, ScriptAction, action_models, dumper_script, lines_text, parse_updater_script,
    partition_map, spec_dumper_lines, spec_partition_map_lines, spec_script_actions,
};
use crate::text::{chars_eq, chars_of, string_from_chars};
use crate::zip::{
    AndroidOtaZipContext, COMPRESSION_DEFLATED, COMPRESSION_STORED, ZipEntry, ZipError,
    read_zip_entries, zip_entries_result,
};

verus! {

/// A name that ends in `/` or `\` names a directory.
pub open spec fn is_dir_name(n: Seq<char>) -> bool {
    n.len() > 0 && (n.last() == '/' || n.last() == '\\')
}

/// Whether `name` ends in `/` or `\`.
pub fn is_directory_entry(name: &str) -> (r: bool)
    ensures
        r == is_dir_name(name@),
{
    let cs = chars_of(name);
    cs.len() > 0 && (cs[cs.len() - 1] == '/' || cs[cs.len() - 1] == '\\')
}

/// The label logged for an entry's compression method.
pub open spec fn spec_compression_label(method: u16) -> Seq<char> {
    if method == COMPRESSION_DEFLATED {
        " [DEFLATED]"@
    } else if method == COMPRESSION_STORED {
        ""@
    } else {
        " [COMPRESSED]"@
    }
}

/// The label logged for an entry's compression method.
pub fn compression_label(method: u16) -> (r: String)
    ensures
        r@ == spec_compression_label(method),
{
    let s = if method == COMPRESSION_DEFLATED {
        chars_of(" [DEFLATED]")
    } else if method == COMPRESSION_STORED {
        chars_of("")
    } else {
        chars_of(" [COMPRESSED]")
    };
    string_from_chars(s.as_slice())
}

/// The image that an action dumps or extracts.
pub open spec fn image_of(a: ActionModel) -> Option<Seq<char>> {
    match a {
        ActionModel::WholeImage { image, .. } => Some(image),
        ActionModel::PackageExtract { image, .. } => Some(image),
        _ => None,
    }
}

/// Some action dumps or extracts an image named `name`.
pub open spec fn is_ota_image(actions: Seq<ActionModel>, name: Seq<char>) -> bool {
    exists|i: int| 0 <= i < actions.len() && #[trigger] image_of(actions[i]) == Some(name)
}

/// Whether some action dumps or extracts an image named `name`.
pub fn is_ota_image_name(actions: &Vec<ScriptAction>, name: &str) -> (r: bool)
    ensures
        r == is_ota_image(action_models(actions@), name@),
{
    let n = chars_of(name);
    let ghost am = action_models(actions@);
    let mut i: usize = 0;
    while i < actions.len()
        invariant
            i <= actions@.len(),
            n@ == name@,
            am == action_models(actions@),
            forall|j: int| 0 <= j < i ==> #[trigger] image_of(am[j]) != Some(name@),
        decreases actions@.len() - i,
    {
        assert(am[i as int] == actions@[i as int]@);
        let img = match &actions[i] {
            ScriptAction::WholeImage { image, .. } => Some(chars_of(image.as_str())),
            ScriptAction::PackageExtract { image, .. } => Some(chars_of(image.as_str())),
            _ => None,
        };
        assert(match img {
            Some(v) => image_of(am[i as int]) == Some(v@),
            None => image_of(am[i as int]) is None,
        });
        match img {
            Some(v) => {
                if chars_eq(v.as_slice(), n.as_slice()) {
                    assert(image_of(am[i as int]) == Some(name@));
                    return true;
                }
            },
            None => {},
        }
        i += 1;
    }
    false
}

/// One file entry to write.
pub struct ZipFileOut {
    /// Index of the entry in the central directory.
    pub index: usize,
    /// Where it is written.
    pub path: String,
    /// The compression label logged for it.
    pub label: String,
    /// Whether the updater script dumps or extracts it.
    pub ota: bool,
}

/// What extracting a ZIP archive writes.
pub struct ZipPlan {
    /// The entries of the central directory.
    pub entries: Vec<ZipEntry>,
    /// The file entries, in order.
    pub files: Vec<ZipFileOut>,
    /// The directories to create for the directory entries, in order.
    pub dirs: Vec<String>,
    /// For an OTA package, the texts of dump_partitions.sh and
    /// partitions.tsv.
    pub scripts: Option<(String, String)>,
}

/// The file entries among the first `n` entries: index, output path,
/// compression label and OTA mark.
pub open spec fn spec_files(
    entries: Seq<ZipEntry>,
    out_dir: Seq<char>,
    actions: Seq<ActionModel>,
    n: nat,
) -> Seq<(int, Seq<char>, Seq<char>, bool)>
    decreases n,
{
    if n == 0 {
        Seq::empty()
    } else {
        let prev = spec_files(entries, out_dir, actions, (n - 1) as nat);
        let e = entries[n - 1];
        if is_dir_name(e.name@) {
            prev
        } else {
            prev.push(
                (
                    n - 1,
                    spec_join(out_dir, spec_sanitize_path(e.name@)),
                    spec_compression_label(e.compression_method),
                    is_ota_image(actions, e.name@),
                ),
            )
        }
    }
}

/// The output paths of the directory entries among the first `n`.
pub open spec fn spec_dirs(entries: Seq<ZipEntry>, out_dir: Seq<char>, n: nat) -> Seq<Seq<char>>
    decreases n,
{
    if n == 0 {
        Seq::empty()
    } else {
        let prev = spec_dirs(entries, out_dir, (n - 1) as nat);
        let e = entries[n - 1];
        if is_dir_name(e.name@) {
            prev.push(spec_join(out_dir, spec_sanitize_path(e.name@)))
        } else {
            prev
        }
    }
}

/// The view of a file entry to write.
pub open spec fn file_out_view(f: ZipFileOut) -> (int, Seq<char>, Seq<char>, bool) {
    (f.index as int, f.path@, f.label@, f.ota)
}

/// The actions of the updater script of `ctx` (none for a plain archive).
pub open spec fn ctx_actions(ctx: AndroidOtaZipContext) -> Seq<ActionModel> {
    match ctx {
        AndroidOtaZipContext::AndroidOta { updater_script } => spec_script_actions(updater_script@),
        AndroidOtaZipContext::GenericZip => Seq::empty(),
    }
}

/// Plans the extraction of the ZIP archive `data` recognised as `ctx` into
/// `output_dir`.
pub fn extract_android_ota_zip(data: &[u8], ctx: &AndroidOtaZipContext, output_dir: &str) -> (r:
    Result<ZipPlan, ZipError>)
    ensures
        match r {
            Err(e) => zip_entries_result(data@, Err(e)),
            Ok(p) => {
                &&& zip_entries_result(data@, Ok(p.entries))
                &&& Seq::new(p.files@.len(), |i: int| file_out_view(p.files@[i])) == spec_files(
                    p.entries@,
                    output_dir@,
                    ctx_actions(*ctx),
                    p.entries@.len(),
                )
                &&& Seq::new(p.dirs@.len(), |i: int| p.dirs@[i]@) == spec_dirs(
                    p.entries@,
                    output_dir@,
                    p.entries@.len(),
                )
                &&& match *ctx {
                    AndroidOtaZipContext::AndroidOta { .. } => p.scripts matches Some(s) && s.0@
                        == lines_text(spec_dumper_lines(ctx_actions(*ctx))) && s.1@ == lines_text(
                        spec_partition_map_lines(ctx_actions(*ctx)),
                    ),
                    AndroidOtaZipContext::GenericZip => p.scripts is None,
                }
            },
        },
{
    let entries = match read_zip_entries(data) {
        Ok(e) => e,
        Err(e) => {
            return Err(e);
        },
    };
    let actions: Vec<ScriptAction> = match ctx {
        AndroidOtaZipContext::AndroidOta { updater_script } => parse_updater_script(
            updater_script.as_str(),
        ),
        AndroidOtaZipContext::GenericZip => Vec::new(),
    };
    let ghost am = ctx_actions(*ctx);
    assert(action_models(actions@) =~= am);
    let mut files: Vec<ZipFileOut> = Vec::new();
    let mut dirs: Vec<String> = Vec::new();
    let mut i: usize = 0;
    while i < entries.len()
        invariant
            i <= entries@.len(),
            action_models(actions@) == am,
            Seq::new(files@.len(), |k: int| file_out_view(files@[k])) == spec_files(
                entries@,
                output_dir@,
                am,
                i as nat,
            ),
            Seq::new(dirs@.len(), |k: int| dirs@[k]@) == spec_dirs(entries@, output_dir@, i as nat),
        decreases entries@.len() - i,
    {
        let e = &entries[i];
        let path = match safe_output_path(output_dir, e.name.as_str()) {
            Ok(p) => p,
            // Not taken: a sanitised path always lies inside the output directory.
            Err(_) => string_from_chars(Vec::<char>::new().as_slice()),
        };
        let ghost f0 = files@;
        let ghost d0 = dirs@;
        if is_directory_entry(e.name.as_str()) {
            dirs.push(path);
            assert(Seq::new(dirs@.len(), |k: int| dirs@[k]@) =~= Seq::new(d0.len(), |k: int| d0[k]@).push(
                spec_join(output_dir@, spec_sanitize_path(e.name@)),
            ));
        } else {
            let f = ZipFileOut {
                index: i,
                path,
                label: compression_label(e.compression_method),
                ota: is_ota_image_name(&actions, e.name.as_str()),
            };
            files.push(f);
            assert(Seq::new(files@.len(), |k: int| file_out_view(files@[k])) =~= Seq::new(
                f0.len(),
                |k: int| file_out_view(f0[k]),
            ).push(file_out_view(f)));
        }
        i += 1;
    }
    let scripts = match ctx {
        AndroidOtaZipContext::AndroidOta { .. } => {
            let d = dumper_script(&actions);
            let m = partition_map(&actions);
            Some((string_from_chars(d.as_slice()), string_from_chars(m.as_slice())))
        },
        AndroidOtaZipContext::GenericZip => None,
    };
    Ok(ZipPlan { entries, files, dirs, scripts })
}

} // verus!
