//! The zip/cbz backend.
//!
//! A zip archive holds a table of entries; the backend filters them down to
//! image files, sorts them by name, and serves page bytes by decompressing
//! one entry per request.  Encrypted archives require a password before the
//! open succeeds.

use crate::cache::PageError;
use crate::err::{pwd_ref_view, pwd_view, OpenError};
use crate::exts::{check_valid_ext, valid_image_name};
use crate::ident::{sha256_digest, sha256_of};
use crate::order::{pair_views, sort_pairs, sorted_by_name};
use vstd::prelude::*;

verus! {

#[verifier::external_type_specification]
#[verifier::external_body]
#[verifier::reject_recursive_types(R)]
pub struct ExZipArchive<R>(zip::ZipArchive<R>);

/// A zip archive read from an in-memory byte vector.
pub type ZipData = zip::ZipArchive<std::io::Cursor<Vec<u8>>>;

/// The entry table the byte string parses to as a zip archive — per
/// entry its raw name bytes, whether it is a file (not a directory or
/// symlink), and whether it is encrypted — or nothing when the central
/// directory does not parse.  The result depends on the bytes alone.
pub uninterp spec fn zip_parse_of(data: Seq<u8>) -> Option<Seq<(Seq<u8>, bool, bool)>>;

/// What opening entry `index` of the archive in `data` with `password`
/// and reading it fully yields: the decompressed (and, where needed,
/// decrypted) content, or nothing when the index is out of range, a
/// needed password is absent or rejected, or the entry does not decode.
/// The result depends on the arguments alone.
pub uninterp spec fn zip_entry_read_of(data: Seq<u8>, index: int, password: Option<Seq<u8>>) -> Option<Seq<u8>>;

/// The entry table of an open archive, as parsed from its bytes.
pub uninterp spec fn zip_toc_of(a: ZipData) -> Seq<(Seq<u8>, bool, bool)>;

/// The byte string an open archive was parsed from.
pub uninterp spec fn zip_bytes_of(a: ZipData) -> Seq<u8>;

/// How a single zip operation failed.
pub enum ZipFault {
    /// The entry is encrypted and the password is missing or wrong.
    NeedPassword,
    /// Any other failure, with its message.
    Other(String),
}

/// Relies on zip::ZipArchive::new: parses the central directory of the
/// archive in the byte vector; it succeeds exactly when the bytes parse.
/// The password irrelevance clause restates what the entry opener does:
/// a supplied password is discarded for an unencrypted entry.
#[verifier::external_body]
fn zip_open(data: Vec<u8>) -> (r: Result<ZipData, String>)
    ensures
        r matches Ok(a) ==> {
            &&& zip_parse_of(data@) == Some(zip_toc_of(a))
            &&& zip_bytes_of(a) == data@
        },
        r is Err <==> zip_parse_of(data@) is None,
        r is Ok ==> forall|j: int, p: Option<Seq<u8>>|
            (zip_parse_of(data@) matches Some(t) && 0 <= j < t.len() && !t[j].2)
                ==> #[trigger] zip_entry_read_of(data@, j, p) == zip_entry_read_of(
                data@,
                j,
                Option::<Seq<u8>>::None,
            ),
{
    zip::ZipArchive::new(std::io::Cursor::new(data)).map_err(|e| format!("{}", e))
}

/// Relies on zip::ZipArchive::len: the number of entries in the table.
#[verifier::external_body]
fn zip_len(a: &ZipData) -> (r: usize)
    ensures
        r == zip_toc_of(*a).len(),
{
    a.len()
}

/// Relies on zip::ZipArchive::by_index_with_options: opens one entry and
/// reports its raw name bytes and kind.  The archive is unchanged by
/// reading.  Opening succeeds whenever the entry reads fully with the
/// same password; the password fault comes exactly from encrypted
/// entries with the password absent or rejected.
#[verifier::external_body]
fn zip_entry_meta(a: &mut ZipData, index: usize, password: Option<&Vec<u8>>) -> (r: Result<
    (bool, Vec<u8>),
    ZipFault,
>)
    ensures
        zip_toc_of(*final(a)) == zip_toc_of(*old(a)),
        zip_bytes_of(*final(a)) == zip_bytes_of(*old(a)),
        r matches Ok(m) ==> {
            &&& index < zip_toc_of(*old(a)).len()
            &&& m.1@ == zip_toc_of(*old(a))[index as int].0
            &&& m.0 == zip_toc_of(*old(a))[index as int].1
        },
        index < zip_toc_of(*old(a)).len() && zip_entry_read_of(
            zip_bytes_of(*old(a)),
            index as int,
            pwd_ref_view(password),
        ) is Some ==> r is Ok,
        index < zip_toc_of(*old(a)).len() && zip_toc_of(*old(a))[index as int].2 && password
            is None ==> (r matches Err(f) && f is NeedPassword),
        (r matches Err(f) && f is NeedPassword) ==> index < zip_toc_of(*old(a)).len()
            && zip_toc_of(*old(a))[index as int].2,
{
    let opts = zip::read::ZipReadOptions::new().password(password.map(|p| p.as_slice()));
    match a.by_index_with_options(index, opts) {
        Ok(f) => Ok((f.is_file(), f.name_raw().to_vec())),
        Err(zip::result::ZipError::InvalidPassword) => Err(ZipFault::NeedPassword),
        Err(zip::result::ZipError::UnsupportedArchive(m))
            if m == zip::result::ZipError::PASSWORD_REQUIRED
            => Err(ZipFault::NeedPassword),
        Err(e) => Err(ZipFault::Other(format!("{}", e))),
    }
}

/// Relies on zip::ZipArchive::by_index_with_options and std::io::copy:
/// decompresses one entry fully into memory, decrypting when a password
/// is set.  The archive is unchanged by reading; the read succeeds
/// exactly when the entry-read value exists, and yields it.
#[verifier::external_body]
fn zip_read_by_index(a: &mut ZipData, index: usize, password: Option<&Vec<u8>>) -> (r: Result<
    Vec<u8>,
    ZipFault,
>)
    ensures
        zip_toc_of(*final(a)) == zip_toc_of(*old(a)),
        zip_bytes_of(*final(a)) == zip_bytes_of(*old(a)),
        r is Ok <==> zip_entry_read_of(
            zip_bytes_of(*old(a)),
            index as int,
            pwd_ref_view(password),
        ) is Some,
        r matches Ok(b) ==> {
            &&& index < zip_toc_of(*old(a)).len()
            &&& Some(b@) == zip_entry_read_of(
                zip_bytes_of(*old(a)),
                index as int,
                pwd_ref_view(password),
            )
        },
        index < zip_toc_of(*old(a)).len() && zip_toc_of(*old(a))[index as int].2 && password
            is None ==> (r matches Err(f) && f is NeedPassword),
        (r matches Err(f) && f is NeedPassword) ==> index < zip_toc_of(*old(a)).len()
            && zip_toc_of(*old(a))[index as int].2,
{
    let opts = zip::read::ZipReadOptions::new().password(password.map(|p| p.as_slice()));
    match a.by_index_with_options(index, opts) {
        Ok(mut f) => {
            let mut buffer: Vec<u8> = Vec::with_capacity(f.size() as usize);
            match std::io::copy(&mut f, &mut buffer) {
                Ok(_) => Ok(buffer),
                Err(e) => Err(ZipFault::Other(format!("{}", e))),
            }
        },
        Err(zip::result::ZipError::InvalidPassword) => Err(ZipFault::NeedPassword),
        Err(zip::result::ZipError::UnsupportedArchive(m))
            if m == zip::result::ZipError::PASSWORD_REQUIRED
            => Err(ZipFault::NeedPassword),
        Err(e) => Err(ZipFault::Other(format!("{}", e))),
    }
}

/// Relies on zip::ZipArchive::index_for_name: looks an entry up by its
/// exact raw name bytes; names are unique in the table the crate builds.
/// The lookup answers only for names that are valid text, so a miss
/// proves nothing about the table and the contract claims nothing of it.
#[verifier::external_body]
fn zip_index_for_name(a: &ZipData, name: &[u8]) -> (r: Option<usize>)
    ensures
        r matches Some(i) ==> i < zip_toc_of(*a).len() && zip_toc_of(*a)[i as int].0 == name@,
{
    match std::str::from_utf8(name) {
        Ok(s) => a.index_for_name(s),
        Err(_) => None,
    }
}

/// The `(name, entry index)` pairs of the image-file entries among the
/// first `n` entries of the table, in table order.
pub open spec fn image_pairs_upto(toc: Seq<(Seq<u8>, bool, bool)>, n: int) -> Seq<
    (Seq<u8>, usize),
>
    decreases n,
{
    if n <= 0 {
        Seq::empty()
    } else {
        let p = image_pairs_upto(toc, n - 1);
        if toc[n - 1].1 && valid_image_name(toc[n - 1].0) {
            p.push((toc[n - 1].0, (n - 1) as usize))
        } else {
            p
        }
    }
}

/// The `(name, entry index)` pairs of all image-file entries of the table.
pub open spec fn image_pairs(toc: Seq<(Seq<u8>, bool, bool)>) -> Seq<(Seq<u8>, usize)> {
    image_pairs_upto(toc, toc.len() as int)
}

/// The archive in `data` opens as a page source with `password`: the
/// bytes parse, every unencrypted entry reads without a password, and
/// every encrypted entry reads with the given password, which is then
/// present.
pub open spec fn zip_source_ready(data: Seq<u8>, password: Option<Seq<u8>>) -> bool {
    match zip_parse_of(data) {
        Some(toc) => {
            &&& forall|j: int|
                0 <= j < toc.len() && !toc[j].2 ==> (#[trigger] zip_entry_read_of(
                    data,
                    j,
                    Option::<Seq<u8>>::None,
                )) is Some
            &&& forall|j: int|
                0 <= j < toc.len() && toc[j].2 ==> password is Some && (
                #[trigger] zip_entry_read_of(data, j, password)) is Some
        },
        None => false,
    }
}

/// What a successfully opened zip page source guarantees: the parse
/// couplings, the fingerprint, and the page table as exactly the
/// archive's image-file entries sorted by name; without a password,
/// success also means no entry was encrypted.
pub open spec fn zip_source_spec(z: ZippedSource, data: Seq<u8>, password: Option<Seq<u8>>) -> bool {
    &&& z.wf()
    &&& z.spec_sha256() == sha256_of(data)
    &&& zip_parse_of(data) == Some(zip_toc_of(z.spec_archive()))
    &&& zip_toc_of(z.spec_archive()).len() <= usize::MAX
    &&& zip_bytes_of(z.spec_archive()) == data
    &&& z.spec_password() == password
    &&& sorted_by_name(z.table())
    &&& z.table().to_multiset() == image_pairs(zip_toc_of(z.spec_archive())).to_multiset()
    &&& (password is None ==> forall|j: int|
        0 <= j < zip_toc_of(z.spec_archive()).len() ==> !zip_toc_of(z.spec_archive())[j].2)
    &&& (forall|j: int, p: Option<Seq<u8>>|
        0 <= j < zip_toc_of(z.spec_archive()).len() && !zip_toc_of(z.spec_archive())[j].2
            ==> #[trigger] zip_entry_read_of(data, j, p) == zip_entry_read_of(
            data,
            j,
            Option::<Seq<u8>>::None,
        ))
}

/// Probes every entry without a password and reports the first one that
/// demands one; when none does, no entry of the archive is encrypted.
/// The probe cannot fail while every unencrypted entry is readable.
fn find_encrypted(archive: &mut ZipData) -> (r: Result<Option<usize>, String>)
    ensures
        zip_toc_of(*final(archive)) == zip_toc_of(*old(archive)),
        zip_bytes_of(*final(archive)) == zip_bytes_of(*old(archive)),
        r matches Ok(None) ==> forall|j: int|
            0 <= j < zip_toc_of(*old(archive)).len() ==> !zip_toc_of(*old(archive))[j].2,
        r matches Ok(Some(i)) ==> i < zip_toc_of(*old(archive)).len() && zip_toc_of(
            *old(archive),
        )[i as int].2,
        (forall|j: int|
            0 <= j < zip_toc_of(*old(archive)).len() && !zip_toc_of(*old(archive))[j].2 ==> (
            #[trigger] zip_entry_read_of(
                zip_bytes_of(*old(archive)),
                j,
                Option::<Seq<u8>>::None,
            )) is Some) ==> r is Ok,
{
    let len = zip_len(archive);
    let ghost toc = zip_toc_of(*archive);
    let ghost b = zip_bytes_of(*archive);
    let mut i: usize = 0;
    while i < len
        invariant
            len == zip_toc_of(*archive).len(),
            zip_toc_of(*archive) == toc,
            toc == zip_toc_of(*old(archive)),
            b == zip_bytes_of(*archive),
            b == zip_bytes_of(*old(archive)),
            i <= len,
            forall|j: int| 0 <= j < i ==> !toc[j].2,
        decreases len - i,
    {
        match zip_entry_meta(archive, i, None) {
            Ok(_) => {},
            Err(ZipFault::NeedPassword) => {
                return Ok(Some(i));
            },
            Err(ZipFault::Other(m)) => {
                proof {
                    // under full readability this entry would have opened
                    if !toc[i as int].2 && zip_entry_read_of(b, i as int, Option::<Seq<u8>>::None)
                        is Some {
                        assert(false);
                    }
                }
                return Err(m);
            },
        }
        proof {
            if toc[i as int].2 {
                // an encrypted entry probed without a password cannot succeed
                assert(false);
            }
        }
        i = i + 1;
    }
    Ok(None)
}

/// The zip/cbz backend: an open archive, its fingerprint, and the page
/// table mapping logical page index to entry index, sorted by entry name.
pub struct ZippedSource {
    sha256: [u8; 32],
    password: Option<Vec<u8>>,
    zip_archive: ZipData,
    names: Vec<Vec<u8>>,
    indice_table: Vec<usize>,
}

impl ZippedSource {
    /// The open archive.
    pub closed spec fn spec_archive(&self) -> ZipData {
        self.zip_archive
    }

    /// The fingerprint of the container's bytes.
    pub closed spec fn spec_sha256(&self) -> Seq<u8> {
        self.sha256@
    }

    /// The password the source decrypts with.
    pub closed spec fn spec_password(&self) -> Option<Seq<u8>> {
        pwd_view(self.password)
    }

    /// The page table as `(name, entry index)` pairs.
    pub closed spec fn table(&self) -> Seq<(Seq<u8>, usize)> {
        Seq::new(self.names@.len(), |i: int| (self.names@[i]@, self.indice_table@[i]))
    }

    /// The table's two columns are parallel.
    pub closed spec fn wf(&self) -> bool {
        self.names@.len() == self.indice_table@.len()
    }

    /// The number of pages.
    pub fn page_count(&self) -> (r: usize)
        requires
            self.wf(),
        ensures
            r == self.table().len(),
    {
        self.indice_table.len()
    }

    /// The fingerprint of the container's bytes.
    pub fn sha256(&self) -> (r: &[u8; 32])
        ensures
            r@ == self.spec_sha256(),
    {
        &self.sha256
    }

    /// Opens a zip archive from its bytes.  Success is owed whenever the
    /// bytes open as a page source with the password; the password error
    /// comes only from an archive with an encrypted entry; bytes that do
    /// not parse are refused as invalid.  On success the page table holds
    /// exactly the archive's image-file entries, sorted by name; when no
    /// password was given, success means no entry was encrypted.
    pub fn new(data: Vec<u8>, password: Option<Vec<u8>>) -> (r: Result<ZippedSource, OpenError>)
        ensures
            r matches Ok(z) ==> zip_source_spec(z, data@, pwd_view(password)),
            zip_source_ready(data@, pwd_view(password)) ==> r is Ok,
            (r matches Err(e) && e is NeedPassword) ==> (zip_parse_of(data@) matches Some(toc)
                && exists|j: int| 0 <= j < toc.len() && (#[trigger] toc[j]).2),
            (zip_parse_of(data@) matches Some(toc) && (forall|j: int|
                0 <= j < toc.len() && !toc[j].2 ==> (#[trigger] zip_entry_read_of(
                    data@,
                    j,
                    Option::<Seq<u8>>::None,
                )) is Some) && (exists|j: int| 0 <= j < toc.len() && (#[trigger] toc[j]).2)
                && password is None) ==> (r matches Err(e) && e is NeedPassword),
            zip_parse_of(data@) is None ==> (r matches Err(e) && e is Invalid),
    {
        let ghost dv = data@;
        let ghost pv = pwd_view(password);
        let sha256 = sha256_digest(data.as_slice());
        let mut archive = match zip_open(data) {
            Ok(a) => a,
            Err(m) => {
                return Err(OpenError::Invalid(m));
            },
        };
        let len = zip_len(&archive);
        let ghost toc = zip_toc_of(archive);

        // Find the first encrypted entry, if any, by probing each entry
        // without a password.
        let encrypted_at = match find_encrypted(&mut archive) {
            Ok(x) => x,
            Err(m) => {
                proof {
                    // the probe cannot fail while every unencrypted
                    // entry is readable
                    if forall|j: int|
                        0 <= j < toc.len() && !toc[j].2 ==> (#[trigger] zip_entry_read_of(
                            dv,
                            j,
                            Option::<Seq<u8>>::None,
                        )) is Some {
                        assert(false);
                    }
                    if zip_source_ready(dv, pv) {
                        assert forall|j: int|
                            0 <= j < toc.len() && !toc[j].2 implies (#[trigger] zip_entry_read_of(
                            dv,
                            j,
                            Option::<Seq<u8>>::None,
                        )) is Some by {}
                        assert(false);
                    }
                }
                return Err(OpenError::Invalid(m));
            },
        };

        // An encrypted entry demands a password; a supplied password is
        // verified against that entry before the open succeeds.
        let ghost no_encryption = encrypted_at is None;
        proof {
            assert(no_encryption ==> forall|j: int| 0 <= j < toc.len() ==> !toc[j].2);
            match encrypted_at {
                Some(e) => {
                    assert(toc[e as int].2);
                    assert(exists|j: int| 0 <= j < toc.len() && (#[trigger] toc[j]).2);
                },
                None => {},
            }
        }
        match encrypted_at {
            Some(enc) => {
                match &password {
                    Some(pwd) => {
                        proof {
                            if zip_source_ready(dv, pv) {
                                // an encrypted entry of a ready archive
                                // reads with the stored password
                                assert(zip_entry_read_of(dv, enc as int, pv) is Some);
                            }
                        }
                        match zip_entry_meta(&mut archive, enc, Some(pwd)) {
                            Ok(_) => {},
                            Err(ZipFault::NeedPassword) => {
                                proof {
                                    if zip_source_ready(dv, pv) {
                                        assert(false);
                                    }
                                }
                                return Err(OpenError::NeedPassword);
                            },
                            Err(ZipFault::Other(m)) => {
                                proof {
                                    if zip_source_ready(dv, pv) {
                                        assert(false);
                                    }
                                }
                                return Err(OpenError::Invalid(m));
                            },
                        }
                    },
                    None => {
                        proof {
                            if zip_source_ready(dv, pv) {
                                // a ready archive with an encrypted entry
                                // comes with a password
                                assert(pv is Some);
                                assert(false);
                            }
                        }
                        return Err(OpenError::NeedPassword);
                    },
                }
            },
            None => {},
        }

        // Build the page table: image-file entries, sorted by name.
        let mut pairs: Vec<(Vec<u8>, usize)> = Vec::new();
        let mut k: usize = 0;
        proof {
            assert(pair_views(pairs@) =~= image_pairs_upto(toc, 0));
        }
        while k < len
            invariant
                len == zip_toc_of(archive).len(),
                zip_toc_of(archive) == toc,
                zip_bytes_of(archive) == dv,
                zip_parse_of(dv) == Some(toc),
                dv == data@,
                pv == pwd_view(password),
                forall|j: int, p: Option<Seq<u8>>|
                    (zip_parse_of(dv) matches Some(t) && 0 <= j < t.len() && !t[j].2)
                        ==> #[trigger] zip_entry_read_of(dv, j, p) == zip_entry_read_of(
                        dv,
                        j,
                        Option::<Seq<u8>>::None,
                    ),
                k <= len,
                pair_views(pairs@) =~= image_pairs_upto(toc, k as int),
                no_encryption ==> forall|j: int| 0 <= j < toc.len() ==> !toc[j].2,
            decreases len - k,
        {
            let pwd_arg = password.as_ref();
            proof {
                assert(pwd_ref_view(pwd_arg) == pv);
                if zip_source_ready(dv, pv) {
                    // a ready archive's every entry opens with the stored
                    // password: unencrypted entries ignore it
                    if !toc[k as int].2 {
                        assert(zip_entry_read_of(dv, k as int, Option::<Seq<u8>>::None) is Some);
                        assert(zip_entry_read_of(dv, k as int, pv) == zip_entry_read_of(
                            dv,
                            k as int,
                            Option::<Seq<u8>>::None,
                        ));
                    } else {
                        assert(zip_entry_read_of(dv, k as int, pv) is Some);
                    }
                }
            }
            let meta = match zip_entry_meta(&mut archive, k, pwd_arg) {
                Ok(m) => m,
                Err(ZipFault::NeedPassword) => {
                    proof {
                        if zip_source_ready(dv, pv) {
                            assert(false);
                        }
                        assert(toc[k as int].2);
                        assert(exists|j: int| 0 <= j < toc.len() && (#[trigger] toc[j]).2);
                    }
                    return Err(OpenError::NeedPassword);
                },
                Err(ZipFault::Other(m)) => {
                    proof {
                        if zip_source_ready(dv, pv) {
                            assert(false);
                        }
                    }
                    return Err(OpenError::Invalid(m));
                },
            };
            let (is_file, name) = meta;
            if is_file && check_valid_ext(name.as_slice()) {
                pairs.push((name, k));
            }
            proof {
                assert(pair_views(pairs@) =~= image_pairs_upto(toc, k + 1 as int));
            }
            k = k + 1;
        }

        let sorted = sort_pairs(pairs);
        let mut names: Vec<Vec<u8>> = Vec::new();
        let mut indice_table: Vec<usize> = Vec::new();
        let mut t: usize = 0;
        while t < sorted.len()
            invariant
                t <= sorted@.len(),
                names@.len() == t,
                indice_table@.len() == t,
                forall|j: int|
                    0 <= j < t ==> (names@[j]@, indice_table@[j]) == pair_views(sorted@)[j],
            decreases sorted@.len() - t,
        {
            let name = sorted[t].0.clone();
            let idx = sorted[t].1;
            names.push(name);
            indice_table.push(idx);
            t = t + 1;
        }

        let source = ZippedSource { sha256, password, zip_archive: archive, names, indice_table };
        proof {
            assert(source.table() =~= pair_views(sorted@));
        }
        Ok(source)
    }

    /// The decompressed bytes of page `index`: exactly the entry-read
    /// value of the page's entry under the stored password, with success
    /// exactly when that value exists.  An index at or past the page
    /// count yields an empty result rather than an error, so a
    /// momentarily stale viewport cannot crash the caller.
    pub fn get_page_bytes(&mut self, index: usize) -> (r: Result<Vec<u8>, PageError>)
        requires
            old(self).wf(),
        ensures
            final(self).wf(),
            final(self).table() == old(self).table(),
            final(self).spec_sha256() == old(self).spec_sha256(),
            final(self).spec_password() == old(self).spec_password(),
            zip_toc_of(final(self).spec_archive()) == zip_toc_of(old(self).spec_archive()),
            zip_bytes_of(final(self).spec_archive()) == zip_bytes_of(old(self).spec_archive()),
            index >= old(self).table().len() ==> (r matches Ok(b) && b@ == Seq::<u8>::empty()),
            index < old(self).table().len() ==> {
                &&& (r is Ok <==> zip_entry_read_of(
                    zip_bytes_of(old(self).spec_archive()),
                    old(self).table()[index as int].1 as int,
                    old(self).spec_password(),
                ) is Some)
                &&& (r matches Ok(b) ==> Some(b@) == zip_entry_read_of(
                    zip_bytes_of(old(self).spec_archive()),
                    old(self).table()[index as int].1 as int,
                    old(self).spec_password(),
                ))
                &&& ((r matches Err(e) && e == PageError::NeedPassword) ==> {
                    let inner = old(self).table()[index as int].1 as int;
                    &&& inner < zip_toc_of(old(self).spec_archive()).len()
                    &&& zip_toc_of(old(self).spec_archive())[inner].2
                })
                &&& ({
                    let inner = old(self).table()[index as int].1 as int;
                    inner < zip_toc_of(old(self).spec_archive()).len() && zip_toc_of(
                        old(self).spec_archive(),
                    )[inner].2 && old(self).spec_password() is None
                } ==> (r matches Err(e) && e == PageError::NeedPassword))
            },
    {
        if index >= self.indice_table.len() {
            let empty: Vec<u8> = Vec::new();
            return Ok(empty);
        }
        let inner = self.indice_table[index];
        match zip_read_by_index(&mut self.zip_archive, inner, self.password.as_ref()) {
            Ok(b) => Ok(b),
            Err(ZipFault::NeedPassword) => Err(PageError::NeedPassword),
            Err(ZipFault::Other(_)) => Err(PageError::DecodeError),
        }
    }

    /// Replaces the page table with the given name list: page `k` becomes
    /// the entry named `img_paths[k]`, and a name the archive's lookup
    /// does not resolve is mapped past the table, so that reading the
    /// page fails as unresolved.  The epub backend uses this to impose
    /// the document's reading order on the underlying zip archive.
    pub fn rebuild_indice_table(&mut self, img_paths: Vec<Vec<u8>>) -> (t: ())
        ensures
            final(self).wf(),
            final(self).spec_sha256() == old(self).spec_sha256(),
            final(self).spec_password() == old(self).spec_password(),
            zip_toc_of(final(self).spec_archive()) == zip_toc_of(old(self).spec_archive()),
            zip_bytes_of(final(self).spec_archive()) == zip_bytes_of(old(self).spec_archive()),
            final(self).table().len() == img_paths@.len(),
            forall|k: int|
                0 <= k < img_paths@.len() ==> {
                    &&& final(self).table()[k].0 == img_paths@[k]@
                    &&& (final(self).table()[k].1 < zip_toc_of(final(self).spec_archive()).len()
                        ==> zip_toc_of(final(self).spec_archive())[final(self).table()[k].1 as int].0
                        == img_paths@[k]@)
                },
    {
        let mut names: Vec<Vec<u8>> = Vec::new();
        let mut indice_table: Vec<usize> = Vec::new();
        let ghost toc = zip_toc_of(self.zip_archive);
        let archive_len = zip_len(&self.zip_archive);
        let mut k: usize = 0;
        while k < img_paths.len()
            invariant
                archive_len == toc.len(),
                k <= img_paths@.len(),
                names@.len() == k,
                indice_table@.len() == k,
                toc == zip_toc_of(self.zip_archive),
                forall|j: int| 0 <= j < k ==> names@[j]@ == img_paths@[j]@,
                forall|j: int|
                    0 <= j < k ==> (indice_table@[j] < toc.len() ==> toc[indice_table@[j] as int].0
                        == img_paths@[j]@),
            decreases img_paths@.len() - k,
        {
            let name = img_paths[k].clone();
            match zip_index_for_name(&self.zip_archive, name.as_slice()) {
                Some(i) => {
                    names.push(name);
                    indice_table.push(i);
                },
                None => {
                    names.push(name);
                    indice_table.push(usize::MAX);
                },
            }
            k = k + 1;
        }
        self.names = names;
        self.indice_table = indice_table;
    }
}


/// Every image pair of the table points at a file entry bearing its name.
proof fn lemma_image_pairs_elems(toc: Seq<(Seq<u8>, bool, bool)>, n: int)
    requires
        0 <= n <= toc.len(),
        toc.len() <= usize::MAX,
    ensures
        forall|w: int|
            0 <= w < image_pairs_upto(toc, n).len() ==> {
                &&& ((#[trigger] image_pairs_upto(toc, n)[w]).1 as int) < n
                &&& toc[image_pairs_upto(toc, n)[w].1 as int].0 == image_pairs_upto(toc, n)[w].0
            },
    decreases n,
{
    if n > 0 {
        lemma_image_pairs_elems(toc, n - 1);
        let prev = image_pairs_upto(toc, n - 1);
        let cur = image_pairs_upto(toc, n);
        assert forall|w: int| 0 <= w < cur.len() implies ((#[trigger] cur[w]).1 as int) < n
            && toc[cur[w].1 as int].0 == cur[w].0 by {
            if toc[n - 1].1 && valid_image_name(toc[n - 1].0) {
                assert(cur == prev.push((toc[n - 1].0, (n - 1) as usize)));
                if w < prev.len() {
                    assert(cur[w] == prev[w]);
                }
            } else {
                assert(cur == prev);
            }
        }
    }
}

/// The law of the password retry: once a zip source opened over a ready
/// archive — every entry readable with the password at hand — every one
/// of its pages reads, whatever its position in the table.
pub proof fn lemma_ready_zip_reads_all_pages(
    z: ZippedSource,
    data: Seq<u8>,
    password: Option<Seq<u8>>,
)
    requires
        zip_source_spec(z, data, password),
        zip_source_ready(data, password),
    ensures
        forall|k: int|
            0 <= k < z.table().len() ==> (#[trigger] zip_entry_read_of(
                data,
                z.table()[k].1 as int,
                password,
            )) is Some,
{
    broadcast use vstd::seq_lib::group_to_multiset_ensures;

    let toc = zip_toc_of(z.spec_archive());
    lemma_image_pairs_elems(toc, toc.len() as int);
    assert forall|k: int| 0 <= k < z.table().len() implies (#[trigger] zip_entry_read_of(
        data,
        z.table()[k].1 as int,
        password,
    )) is Some by {
        let pair = z.table()[k];
        assert(z.table().contains(pair));
        assert(z.table().to_multiset().count(pair) > 0);
        assert(image_pairs(toc).to_multiset().count(pair) > 0);
        assert(image_pairs(toc).contains(pair));
        let w = choose|w: int|
            0 <= w < image_pairs(toc).len() && image_pairs(toc)[w] == pair;
        let j = pair.1 as int;
        assert(j < toc.len());
        if toc[j].2 {
            assert(zip_entry_read_of(data, j, password) is Some);
        } else {
            assert(zip_entry_read_of(data, j, Option::<Seq<u8>>::None) is Some);
            assert(zip_entry_read_of(data, j, password) == zip_entry_read_of(
                data,
                j,
                Option::<Seq<u8>>::None,
            ));
        }
    }
}

} // verus!
