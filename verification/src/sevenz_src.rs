//! The 7z backend.
//!
//! A 7z archive lists its entries up front, but a solid archive compresses
//! them as one continuous stream: a single member can then only be reached
//! by decoding everything before it, so the backend exposes a single-pass
//! drain beside the per-page read.

use crate::cache::PageError;
use crate::err::{pwd_ref_view, pwd_view, OpenError};
use crate::exts::{bytes_eq, check_valid_ext, valid_image_name};
use crate::ident::{sha256_digest, sha256_of};
use crate::order::{lex_le, pair_views, sort_pairs};
use std::io::Read;
use vstd::prelude::*;

verus! {

/// A 7z archive read from an in-memory byte vector.  The reader type of
/// sevenz_rust2::ArchiveReader carries trait bounds that cannot be
/// declared to the verifier, so the archive lives in a hidden field.
#[verifier::external_body]
pub struct SevenzData {
    archive: sevenz_rust2::ArchiveReader<std::io::Cursor<Vec<u8>>>,
}

/// The archive's entry table: each entry's name and whether it is a
/// directory.
pub uninterp spec fn sevenz_toc_of(a: SevenzData) -> Seq<(Seq<u8>, bool)>;

/// The archive's decompressed entry contents, parallel to the entry table.
pub uninterp spec fn sevenz_data_of(a: SevenzData) -> Seq<Seq<u8>>;

/// Whether the archive uses solid compression.
pub uninterp spec fn sevenz_solid_of(a: SevenzData) -> bool;

/// The byte string an open archive was parsed from.
pub uninterp spec fn sevenz_bytes_of(a: SevenzData) -> Seq<u8>;

/// The password an open archive decrypts with.
pub uninterp spec fn sevenz_pwd_of(a: SevenzData) -> Option<Seq<u8>>;

/// Whether the byte string opens as a 7z archive with the password:
/// the metadata parses and the verification pass over every entry's
/// head succeeds.  The outcome depends on the arguments alone.
pub uninterp spec fn sevenz_opens(data: Seq<u8>, password: Option<Seq<u8>>) -> bool;

/// Whether opening the byte string with the password fails with the
/// password fault (required or rejected), at the metadata parse or at
/// the verification pass.  The outcome depends on the arguments alone.
pub uninterp spec fn sevenz_wants_password(data: Seq<u8>, password: Option<Seq<u8>>) -> bool;

/// What reading the named entry of the archive in `data` with the
/// password yields, or nothing when the name is not valid text, names no
/// entry, or the entry does not decode.  The outcome depends on the
/// arguments alone.
pub uninterp spec fn sevenz_entry_read_of(
    data: Seq<u8>,
    password: Option<Seq<u8>>,
    name: Seq<u8>,
) -> Option<Seq<u8>>;

/// Whether the one-pass drain over the archive in `data` with the
/// password decodes every entry without failing.  The outcome depends on
/// the arguments alone.
pub uninterp spec fn sevenz_drain_ok(data: Seq<u8>, password: Option<Seq<u8>>) -> bool;

/// How opening a 7z archive failed.
pub enum SevenzFault {
    /// The archive is encrypted and the password is missing or wrong.
    NeedPassword,
    /// Any other failure, with its message.
    Other(String),
}

/// Relies on sevenz_rust2::ArchiveReader::new: parses the archive's
/// metadata with the given password.  The parse succeeds whenever the
/// whole open would; its password fault comes exactly where the open
/// wants a password.
#[verifier::external_body]
fn sevenz_parse(data: Vec<u8>, password: Option<&Vec<u8>>) -> (r: Result<SevenzData, SevenzFault>)
    ensures
        r matches Ok(a) ==> {
            &&& sevenz_toc_of(a).len() == sevenz_data_of(a).len()
            &&& sevenz_bytes_of(a) == data@
            &&& sevenz_pwd_of(a) == pwd_ref_view(password)
        },
        sevenz_opens(data@, pwd_ref_view(password)) ==> r is Ok,
        (r matches Err(f) && f is NeedPassword) ==> sevenz_wants_password(
            data@,
            pwd_ref_view(password),
        ),
        sevenz_wants_password(data@, pwd_ref_view(password)) ==> !(r matches Err(f) && f
            is Other),
{
    let pwd = match password {
        Some(p) => sevenz_rust2::Password::from(String::from_utf8_lossy(p).as_ref()),
        None => sevenz_rust2::Password::empty(),
    };
    match sevenz_rust2::ArchiveReader::new(std::io::Cursor::new(data), pwd) {
        Ok(archive) => Ok(SevenzData { archive }),
        Err(sevenz_rust2::Error::PasswordRequired) => Err(SevenzFault::NeedPassword),
        Err(sevenz_rust2::Error::MaybeBadPassword(_)) => Err(SevenzFault::NeedPassword),
        Err(e) => Err(SevenzFault::Other(format!("{}", e))),
    }
}

/// Relies on sevenz_rust2::ArchiveReader::for_each_entries: verifies the
/// password by reading the head of each entry, as a wrong password
/// surfaces only when data is decoded.  The archive's table and contents
/// are unchanged.  The pass succeeds whenever the whole open would, and
/// where the open wants a password the pass cannot succeed nor fail any
/// other way.
#[verifier::external_body]
fn sevenz_verify(a: &mut SevenzData) -> (r: Result<(), SevenzFault>)
    ensures
        sevenz_toc_of(*final(a)) == sevenz_toc_of(*old(a)),
        sevenz_data_of(*final(a)) == sevenz_data_of(*old(a)),
        sevenz_solid_of(*final(a)) == sevenz_solid_of(*old(a)),
        sevenz_bytes_of(*final(a)) == sevenz_bytes_of(*old(a)),
        sevenz_pwd_of(*final(a)) == sevenz_pwd_of(*old(a)),
        sevenz_opens(sevenz_bytes_of(*old(a)), sevenz_pwd_of(*old(a))) ==> r is Ok,
        (r matches Err(f) && f is NeedPassword) ==> sevenz_wants_password(
            sevenz_bytes_of(*old(a)),
            sevenz_pwd_of(*old(a)),
        ),
        sevenz_wants_password(sevenz_bytes_of(*old(a)), sevenz_pwd_of(*old(a))) ==> !(r is Ok)
            && !(r matches Err(f) && f is Other),
{
    let probe = a.archive.for_each_entries(|_entry, reader| {
        let mut buffer = [0u8; 16384];
        let _ = reader.read(&mut buffer)?;
        Ok(false)
    });
    match probe {
        Ok(()) => Ok(()),
        Err(sevenz_rust2::Error::PasswordRequired) => Err(SevenzFault::NeedPassword),
        Err(sevenz_rust2::Error::MaybeBadPassword(_)) => Err(SevenzFault::NeedPassword),
        Err(e) => Err(SevenzFault::Other(format!("{}", e))),
    }
}

/// Relies on sevenz_rust2::Archive: the entry names and kinds listed in
/// the archive's metadata, in entry order.
#[verifier::external_body]
fn sevenz_entries(a: &SevenzData) -> (r: Vec<(Vec<u8>, bool)>)
    ensures
        r@.len() == sevenz_toc_of(*a).len(),
        forall|i: int|
            0 <= i < r@.len() ==> (#[trigger] r@[i]).0@ == sevenz_toc_of(*a)[i].0 && r@[i].1
                == sevenz_toc_of(*a)[i].1,
{
    a.archive.archive().files.iter().map(
        |f| (f.name().to_owned().into_bytes(), f.is_directory()),
    ).collect()
}

/// Relies on the `is_solid` field of sevenz_rust2::Archive: whether the
/// archive compresses its entries as one continuous stream.
#[verifier::external_body]
fn sevenz_is_solid(a: &SevenzData) -> (r: bool)
    ensures
        r == sevenz_solid_of(*a),
{
    a.archive.archive().is_solid
}

/// Relies on sevenz_rust2::ArchiveReader::read_file: decodes the entry
/// with the given name; the archive's table and contents are unchanged
/// by reading.  The read succeeds exactly when the entry-read value
/// exists, and yields it.
#[verifier::external_body]
fn sevenz_read_file(a: &mut SevenzData, name: &[u8]) -> (r: Result<Vec<u8>, String>)
    ensures
        sevenz_toc_of(*final(a)) == sevenz_toc_of(*old(a)),
        sevenz_data_of(*final(a)) == sevenz_data_of(*old(a)),
        sevenz_solid_of(*final(a)) == sevenz_solid_of(*old(a)),
        sevenz_bytes_of(*final(a)) == sevenz_bytes_of(*old(a)),
        sevenz_pwd_of(*final(a)) == sevenz_pwd_of(*old(a)),
        r is Ok <==> sevenz_entry_read_of(
            sevenz_bytes_of(*old(a)),
            sevenz_pwd_of(*old(a)),
            name@,
        ) is Some,
        r matches Ok(b) ==> Some(b@) == sevenz_entry_read_of(
            sevenz_bytes_of(*old(a)),
            sevenz_pwd_of(*old(a)),
            name@,
        ),
        r matches Ok(b) ==> exists|i: int|
            0 <= i < sevenz_toc_of(*old(a)).len() && (#[trigger] sevenz_toc_of(*old(a))[i]).0
                == name@ && sevenz_data_of(*old(a))[i] == b@,
{
    let name = match std::str::from_utf8(name) {
        Ok(s) => s,
        Err(e) => return Err(format!("{}", e)),
    };
    a.archive.read_file(name).map_err(|e| format!("{}", e))
}

/// Relies on sevenz_rust2::ArchiveReader::for_each_entries: one linear
/// pass over the archive that decodes every entry exactly once, in the
/// physical block order of the archive, which for a solid archive is the
/// only feasible decode order.
#[verifier::external_body]
fn sevenz_read_all(a: &mut SevenzData) -> (r: Result<Vec<(Vec<u8>, Vec<u8>)>, String>)
    ensures
        sevenz_toc_of(*final(a)) == sevenz_toc_of(*old(a)),
        sevenz_data_of(*final(a)) == sevenz_data_of(*old(a)),
        sevenz_solid_of(*final(a)) == sevenz_solid_of(*old(a)),
        sevenz_bytes_of(*final(a)) == sevenz_bytes_of(*old(a)),
        sevenz_pwd_of(*final(a)) == sevenz_pwd_of(*old(a)),
        r is Ok <==> sevenz_drain_ok(sevenz_bytes_of(*old(a)), sevenz_pwd_of(*old(a))),
        r matches Ok(v) ==> drained_views(v@).to_multiset() == Seq::new(
            sevenz_toc_of(*old(a)).len(),
            |i: int| (sevenz_toc_of(*old(a))[i].0, sevenz_data_of(*old(a))[i]),
        ).to_multiset(),
{
    let mut out: Vec<(Vec<u8>, Vec<u8>)> = Vec::new();
    let walk = a.archive.for_each_entries(|entry, reader| {
        let mut buffer = Vec::new();
        reader.read_to_end(&mut buffer)?;
        out.push((entry.name().to_owned().into_bytes(), buffer));
        Ok(true)
    });
    match walk {
        Ok(()) => Ok(out),
        Err(e) => Err(format!("{}", e)),
    }
}

/// The mathematical value of a drained `(name, content)` list.
pub open spec fn drained_views(s: Seq<(Vec<u8>, Vec<u8>)>) -> Seq<(Seq<u8>, Seq<u8>)> {
    s.map_values(|e: (Vec<u8>, Vec<u8>)| (e.0@, e.1@))
}

/// The names of the image-file entries among the first `n` entries, in
/// entry order.
pub open spec fn image_names_upto(toc: Seq<(Seq<u8>, bool)>, n: int) -> Seq<(Seq<u8>, usize)>
    decreases n,
{
    if n <= 0 {
        Seq::empty()
    } else {
        let p = image_names_upto(toc, n - 1);
        if !toc[n - 1].1 && valid_image_name(toc[n - 1].0) {
            p.push((toc[n - 1].0, (n - 1) as usize))
        } else {
            p
        }
    }
}

/// The names of all image-file entries of the table.
pub open spec fn image_names(toc: Seq<(Seq<u8>, bool)>) -> Seq<(Seq<u8>, usize)> {
    image_names_upto(toc, toc.len() as int)
}

/// What a successfully opened 7z page source guarantees: the open
/// couplings, the fingerprint, and the page table as exactly the names
/// of the archive's image-file entries, sorted.
pub open spec fn sevenz_source_spec(s: SevenzSource, data: Seq<u8>, password: Option<Seq<u8>>) -> bool {
    &&& s.spec_sha256() == sha256_of(data)
    &&& sevenz_bytes_of(s.spec_archive()) == data
    &&& sevenz_pwd_of(s.spec_archive()) == password
    &&& (forall|i: int, j: int|
        0 <= i < j < s.spec_names().len() ==> lex_le(s.spec_names()[i], s.spec_names()[j]))
    &&& s.spec_names().to_multiset() == image_names(
        sevenz_toc_of(s.spec_archive()),
    ).map_values(|p: (Seq<u8>, usize)| p.0).to_multiset()
}

/// The 7z backend: the open archive, its fingerprint, and the page table
/// of image entry names sorted lexicographically.
pub struct SevenzSource {
    sha256: [u8; 32],
    sevenz_archive: SevenzData,
    file_names: Vec<Vec<u8>>,
}

impl SevenzSource {
    /// The open archive.
    pub closed spec fn spec_archive(&self) -> SevenzData {
        self.sevenz_archive
    }

    /// The fingerprint of the container's bytes.
    pub closed spec fn spec_sha256(&self) -> Seq<u8> {
        self.sha256@
    }

    /// The page table: the sorted image entry names.
    pub closed spec fn spec_names(&self) -> Seq<Seq<u8>> {
        Seq::new(self.file_names@.len(), |i: int| self.file_names@[i]@)
    }

    /// The number of pages.
    pub fn page_count(&self) -> (r: usize)
        ensures
            r == self.spec_names().len(),
    {
        self.file_names.len()
    }

    /// The fingerprint of the container's bytes.
    pub fn sha256(&self) -> (r: &[u8; 32])
        ensures
            r@ == self.spec_sha256(),
    {
        &self.sha256
    }

    /// Whether the archive compresses its entries as one continuous
    /// stream, so that pages can only be produced in a single forward
    /// pass.
    pub fn is_solid(&self) -> (r: bool)
        ensures
            r == sevenz_solid_of(self.spec_archive()),
    {
        sevenz_is_solid(&self.sevenz_archive)
    }

    /// Opens a 7z archive from its bytes.  Success is owed whenever the
    /// bytes open with the password; the open fails with the password
    /// error exactly where the archive wants a password that is missing
    /// or rejected.  On success the page table holds exactly the names
    /// of the archive's image-file entries, sorted.
    pub fn new(data: Vec<u8>, password: Option<Vec<u8>>) -> (r: Result<SevenzSource, OpenError>)
        ensures
            r matches Ok(s) ==> sevenz_source_spec(s, data@, pwd_view(password)),
            sevenz_opens(data@, pwd_view(password)) ==> r is Ok,
            (r matches Err(e) && e is NeedPassword) <==> sevenz_wants_password(
                data@,
                pwd_view(password),
            ),
    {
        let ghost dv = data@;
        let ghost pv = pwd_view(password);
        let sha256 = sha256_digest(data.as_slice());
        let pwd_arg = password.as_ref();
        proof {
            assert(pwd_ref_view(pwd_arg) == pv);
        }
        let mut archive = match sevenz_parse(data, pwd_arg) {
            Ok(a) => a,
            Err(SevenzFault::NeedPassword) => {
                return Err(OpenError::NeedPassword);
            },
            Err(SevenzFault::Other(m)) => {
                return Err(OpenError::Invalid(m));
            },
        };
        match sevenz_verify(&mut archive) {
            Ok(()) => {},
            Err(SevenzFault::NeedPassword) => {
                return Err(OpenError::NeedPassword);
            },
            Err(SevenzFault::Other(m)) => {
                return Err(OpenError::Invalid(m));
            },
        }
        let entries = sevenz_entries(&archive);
        let ghost toc = sevenz_toc_of(archive);
        let mut pairs: Vec<(Vec<u8>, usize)> = Vec::new();
        let mut k: usize = 0;
        proof {
            assert(pair_views(pairs@) =~= image_names_upto(toc, 0));
        }
        while k < entries.len()
            invariant
                entries@.len() == toc.len(),
                forall|i: int|
                    0 <= i < entries@.len() ==> (#[trigger] entries@[i]).0@ == toc[i].0
                        && entries@[i].1 == toc[i].1,
                k <= entries@.len(),
                pair_views(pairs@) =~= image_names_upto(toc, k as int),
            decreases entries@.len() - k,
        {
            let is_dir = entries[k].1;
            if !is_dir && check_valid_ext(entries[k].0.as_slice()) {
                let name = entries[k].0.clone();
                pairs.push((name, k));
            }
            proof {
                assert(pair_views(pairs@) =~= image_names_upto(toc, k + 1 as int));
            }
            k = k + 1;
        }
        let sorted = sort_pairs(pairs);
        let mut file_names: Vec<Vec<u8>> = Vec::new();
        let mut t: usize = 0;
        while t < sorted.len()
            invariant
                t <= sorted@.len(),
                file_names@.len() == t,
                forall|j: int| 0 <= j < t ==> (#[trigger] file_names@[j])@ == pair_views(
                    sorted@,
                )[j].0,
            decreases sorted@.len() - t,
        {
            let name = sorted[t].0.clone();
            file_names.push(name);
            t = t + 1;
        }
        let source = SevenzSource { sha256, sevenz_archive: archive, file_names };
        proof {
            let q = pair_views(sorted@);
            assert(source.spec_names() =~= q.map_values(|p: (Seq<u8>, usize)| p.0));
            assert forall|i: int, j: int|
                0 <= i < j < source.spec_names().len() implies lex_le(
                source.spec_names()[i],
                source.spec_names()[j],
            ) by {
                assert(source.spec_names()[i] == q[i].0);
                assert(source.spec_names()[j] == q[j].0);
            }
            crate::order::lemma_map_multiset(q, image_names(toc), |x: (Seq<u8>, usize)| x.0);
        }
        Ok(source)
    }

    /// The decoded bytes of page `index`: exactly the entry-read value
    /// of the page's name under the archive's password, with success
    /// exactly when that value exists.  An index at or past the page
    /// count yields an empty result rather than an error.  On a solid
    /// archive this decodes everything before the entry, so the caller
    /// prefers the single-pass drain there.
    pub fn get_page_bytes(&mut self, index: usize) -> (r: Result<Vec<u8>, PageError>)
        ensures
            final(self).spec_names() == old(self).spec_names(),
            final(self).spec_sha256() == old(self).spec_sha256(),
            sevenz_toc_of(final(self).spec_archive()) == sevenz_toc_of(old(self).spec_archive()),
            sevenz_data_of(final(self).spec_archive()) == sevenz_data_of(old(self).spec_archive()),
            sevenz_solid_of(final(self).spec_archive()) == sevenz_solid_of(
                old(self).spec_archive(),
            ),
            sevenz_bytes_of(final(self).spec_archive()) == sevenz_bytes_of(
                old(self).spec_archive(),
            ),
            sevenz_pwd_of(final(self).spec_archive()) == sevenz_pwd_of(old(self).spec_archive()),
            index >= old(self).spec_names().len() ==> (r matches Ok(b) && b@
                == Seq::<u8>::empty()),
            index < old(self).spec_names().len() ==> {
                &&& (r is Ok <==> sevenz_entry_read_of(
                    sevenz_bytes_of(old(self).spec_archive()),
                    sevenz_pwd_of(old(self).spec_archive()),
                    old(self).spec_names()[index as int],
                ) is Some)
                &&& (r matches Ok(b) ==> Some(b@) == sevenz_entry_read_of(
                    sevenz_bytes_of(old(self).spec_archive()),
                    sevenz_pwd_of(old(self).spec_archive()),
                    old(self).spec_names()[index as int],
                ))
                &&& (r matches Ok(b) ==> exists|i: int|
                    0 <= i < sevenz_toc_of(old(self).spec_archive()).len() && (
                    #[trigger] sevenz_toc_of(old(self).spec_archive())[i]).0 == old(
                        self,
                    ).spec_names()[index as int] && sevenz_data_of(old(self).spec_archive())[i]
                        == b@)
            },
    {
        if index >= self.file_names.len() {
            let empty: Vec<u8> = Vec::new();
            return Ok(empty);
        }
        let name = self.file_names[index].clone();
        proof {
            assert(name@ == old(self).spec_names()[index as int]);
        }
        match sevenz_read_file(&mut self.sevenz_archive, name.as_slice()) {
            Ok(b) => Ok(b),
            Err(_) => Err(PageError::DecodeError),
        }
    }

    /// Drains the whole archive in one forward pass and maps each decoded
    /// entry back to its logical page index; entries that are not pages
    /// are dropped.  This is the only feasible decode order for a solid
    /// archive.  The result is the index assignment of some drained list
    /// that carries exactly the archive's entries.
    pub fn decode_all(&mut self) -> (r: Result<Vec<(usize, Vec<u8>)>, String>)
        ensures
            final(self).spec_names() == old(self).spec_names(),
            final(self).spec_sha256() == old(self).spec_sha256(),
            sevenz_toc_of(final(self).spec_archive()) == sevenz_toc_of(old(self).spec_archive()),
            sevenz_data_of(final(self).spec_archive()) == sevenz_data_of(old(self).spec_archive()),
            sevenz_solid_of(final(self).spec_archive()) == sevenz_solid_of(
                old(self).spec_archive(),
            ),
            sevenz_bytes_of(final(self).spec_archive()) == sevenz_bytes_of(
                old(self).spec_archive(),
            ),
            sevenz_pwd_of(final(self).spec_archive()) == sevenz_pwd_of(old(self).spec_archive()),
            r is Ok <==> sevenz_drain_ok(
                sevenz_bytes_of(old(self).spec_archive()),
                sevenz_pwd_of(old(self).spec_archive()),
            ),
            r matches Ok(v) ==> forall|k: int|
                0 <= k < v@.len() ==> (#[trigger] v@[k]).0 < old(self).spec_names().len(),
            r matches Ok(v) ==> exists|dv: Seq<(Seq<u8>, Seq<u8>)>|
                {
                    &&& #[trigger] dv.to_multiset() == Seq::new(
                        sevenz_toc_of(old(self).spec_archive()).len(),
                        |i: int|
                            (
                                sevenz_toc_of(old(self).spec_archive())[i].0,
                                sevenz_data_of(old(self).spec_archive())[i],
                            ),
                    ).to_multiset()
                    &&& assigned_views(v@) == assigned_of(dv, old(self).spec_names())
                },
    {
        let drained = match sevenz_read_all(&mut self.sevenz_archive) {
            Ok(v) => v,
            Err(m) => {
                return Err(m);
            },
        };
        let ghost dv = drained_views(drained@);
        let out = assign_indices(drained, &self.file_names);
        proof {
            assert(dv.to_multiset() == Seq::new(
                sevenz_toc_of(self.sevenz_archive).len(),
                |i: int|
                    (
                        sevenz_toc_of(self.sevenz_archive)[i].0,
                        sevenz_data_of(self.sevenz_archive)[i],
                    ),
            ).to_multiset());
            assert(assigned_views(out@) == assigned_of(dv, self.spec_names()));
        }
        Ok(out)
    }
}

/// The first position of a name in the page table, scanning from `from`.
pub open spec fn first_index(names: Seq<Seq<u8>>, n: Seq<u8>, from: int) -> Option<int>
    decreases names.len() - from,
{
    if from < 0 || from >= names.len() {
        None
    } else if names[from] == n {
        Some(from)
    } else {
        first_index(names, n, from + 1)
    }
}

/// What assigning logical indices to a drained entry list yields: each
/// entry whose name stands in the page table becomes `(index, content)`
/// with the name's first table position; the others are dropped.
pub open spec fn assigned_of(dv: Seq<(Seq<u8>, Seq<u8>)>, names: Seq<Seq<u8>>) -> Seq<
    (int, Seq<u8>),
>
    decreases dv.len(),
{
    if dv.len() == 0 {
        Seq::empty()
    } else {
        assigned_of(dv.drop_last(), names) + match first_index(names, dv.last().0, 0) {
            Some(i) => seq![(i, dv.last().1)],
            None => Seq::empty(),
        }
    }
}

/// The mathematical value of an assigned `(index, content)` list.
pub open spec fn assigned_views(s: Seq<(usize, Vec<u8>)>) -> Seq<(int, Seq<u8>)> {
    Seq::new(s.len(), |k: int| (s[k].0 as int, s[k].1@))
}

/// A found first position is a real table position.
pub proof fn lemma_first_index_bounds(names: Seq<Seq<u8>>, n: Seq<u8>, from: int)
    ensures
        first_index(names, n, from) matches Some(i) ==> from <= i < names.len() && names[i]
            == n,
    decreases names.len() - from,
{
    if 0 <= from < names.len() && names[from] != n {
        lemma_first_index_bounds(names, n, from + 1);
    }
}

/// Pairs each drained `(name, content)` with the logical index of its
/// name in the page table, exactly as the assignment value says.
pub fn assign_indices(drained: Vec<(Vec<u8>, Vec<u8>)>, names: &Vec<Vec<u8>>) -> (r: Vec<
    (usize, Vec<u8>),
>)
    ensures
        assigned_views(r@) == assigned_of(
            drained_views(drained@),
            Seq::new(names@.len(), |i: int| names@[i]@),
        ),
        forall|k: int| 0 <= k < r@.len() ==> (#[trigger] r@[k]).0 < names@.len(),
{
    let ghost dv = drained_views(drained@);
    let ghost nv = Seq::new(names@.len(), |i: int| names@[i]@);
    let mut out: Vec<(usize, Vec<u8>)> = Vec::new();
    let mut k: usize = 0;
    proof {
        assert(assigned_views(out@) =~= assigned_of(dv.subrange(0, 0), nv));
    }
    while k < drained.len()
        invariant
            dv == drained_views(drained@),
            nv == Seq::new(names@.len(), |i: int| names@[i]@),
            k <= drained@.len(),
            assigned_views(out@) =~= assigned_of(dv.subrange(0, k as int), nv),
            forall|j: int| 0 <= j < out@.len() ==> (#[trigger] out@[j]).0 < names@.len(),
        decreases drained@.len() - k,
    {
        let mut found: Option<usize> = None;
        let mut n: usize = 0;
        while n < names.len()
            invariant_except_break
                found is None,
            invariant
                nv == Seq::new(names@.len(), |i: int| names@[i]@),
                n <= names@.len(),
                k < drained@.len(),
                dv == drained_views(drained@),
                first_index(nv, dv[k as int].0, 0) == first_index(nv, dv[k as int].0, n as int),
            ensures
                nv == Seq::new(names@.len(), |i: int| names@[i]@),
                k < drained@.len(),
                dv == drained_views(drained@),
                match found {
                    Some(i) => first_index(nv, dv[k as int].0, 0) == Some(i as int) && i
                        < names@.len(),
                    None => first_index(nv, dv[k as int].0, 0) is None,
                },
            decreases names@.len() - n,
        {
            if bytes_eq(names[n].as_slice(), drained[k].0.as_slice()) {
                found = Some(n);
                proof {
                    assert(nv[n as int] == dv[k as int].0);
                    assert(first_index(nv, dv[k as int].0, n as int) == Some(n as int));
                }
                break ;
            }
            proof {
                assert(nv[n as int] != dv[k as int].0);
            }
            n = n + 1;
        }
        let ghost pre = assigned_views(out@);
        match found {
            Some(i) => {
                let content = drained[k].1.clone();
                proof {
                    assert(content@ =~= drained@[k as int].1@);
                }
                out.push((i, content));
                proof {
                    assert(assigned_views(out@) =~= pre.push((i as int, dv[k as int].1)));
                }
            },
            None => {},
        }
        proof {
            assert(dv.subrange(0, k + 1 as int).drop_last() =~= dv.subrange(0, k as int));
            assert(dv.subrange(0, k + 1 as int).last() == dv[k as int]);
            assert(assigned_views(out@) =~= assigned_of(dv.subrange(0, k + 1 as int), nv));
        }
        k = k + 1;
    }
    proof {
        assert(dv.subrange(0, dv.len() as int) =~= dv);
    }
    out
}


/// The first column of a drained list: the entry names.
pub open spec fn drained_names(dv: Seq<(Seq<u8>, Seq<u8>)>) -> Seq<Seq<u8>> {
    dv.map_values(|p: (Seq<u8>, Seq<u8>)| p.0)
}

/// The first column of an assigned list: the logical page indices.
pub open spec fn assigned_indices(s: Seq<(int, Seq<u8>)>) -> Seq<int> {
    s.map_values(|p: (int, Seq<u8>)| p.0)
}

/// No two page-table names are the same.
pub open spec fn distinct_names(nv: Seq<Seq<u8>>) -> bool {
    forall|i: int, j: int| 0 <= i < j < nv.len() ==> nv[i] != nv[j]
}

/// The sequence 0, 1, ..., len - 1.
pub open spec fn index_range(len: int) -> Seq<int> {
    Seq::new(len as nat, |i: int| i)
}

/// A name without a first position stands nowhere in the table.
proof fn lemma_first_index_none(nv: Seq<Seq<u8>>, n: Seq<u8>, from: int)
    requires
        first_index(nv, n, from) is None,
        from >= 0,
    ensures
        forall|k: int| from <= k < nv.len() ==> nv[k] != n,
    decreases nv.len() - from,
{
    if from < nv.len() {
        lemma_first_index_none(nv, n, from + 1);
    }
}

/// How often a page index appears among the assigned indices: exactly as
/// often as its name appears among the drained names.
proof fn lemma_assigned_count(dv: Seq<(Seq<u8>, Seq<u8>)>, nv: Seq<Seq<u8>>, j: int)
    requires
        distinct_names(nv),
        0 <= j < nv.len(),
    ensures
        assigned_indices(assigned_of(dv, nv)).to_multiset().count(j) == drained_names(
            dv,
        ).to_multiset().count(nv[j]),
    decreases dv.len(),
{
    broadcast use vstd::seq_lib::group_to_multiset_ensures;

    if dv.len() == 0 {
        assert(assigned_of(dv, nv) =~= Seq::<(int, Seq<u8>)>::empty());
        assert(assigned_indices(assigned_of(dv, nv)) =~= Seq::<int>::empty());
        assert(drained_names(dv) =~= Seq::<Seq<u8>>::empty());
        assert(Seq::<int>::empty().to_multiset().count(j) == 0);
        assert(Seq::<Seq<u8>>::empty().to_multiset().count(nv[j]) == 0);
    } else {
        let d2 = dv.drop_last();
        let last = dv.last();
        lemma_assigned_count(d2, nv, j);
        assert(drained_names(dv) =~= drained_names(d2).push(last.0));
        vstd::seq_lib::to_multiset_build(drained_names(d2), last.0);
        match first_index(nv, last.0, 0) {
            Some(i) => {
                lemma_first_index_bounds(nv, last.0, 0);
                assert(nv[i] == last.0);
                assert(assigned_of(dv, nv) =~= assigned_of(d2, nv).push((i, last.1)));
                assert(assigned_indices(assigned_of(dv, nv)) =~= assigned_indices(
                    assigned_of(d2, nv),
                ).push(i));
                vstd::seq_lib::to_multiset_build(assigned_indices(assigned_of(d2, nv)), i);
                if i == j {
                    assert(last.0 == nv[j]);
                } else {
                    // with distinct names, another position's name differs
                    assert(nv[i] != nv[j]);
                }
            },
            None => {
                lemma_first_index_none(nv, last.0, 0);
                assert(nv[j] != last.0);
                assert(assigned_of(dv, nv) =~= assigned_of(d2, nv) + Seq::<(int, Seq<u8>)>::empty());
                assert(assigned_of(dv, nv) =~= assigned_of(d2, nv));
            },
        }
    }
}

/// Every assigned index is a real page index.
proof fn lemma_assigned_in_range(dv: Seq<(Seq<u8>, Seq<u8>)>, nv: Seq<Seq<u8>>)
    ensures
        forall|k: int|
            0 <= k < assigned_of(dv, nv).len() ==> 0 <= (#[trigger] assigned_of(dv, nv)[k]).0
                < nv.len(),
    decreases dv.len(),
{
    if dv.len() > 0 {
        let d2 = dv.drop_last();
        lemma_assigned_in_range(d2, nv);
        lemma_first_index_bounds(nv, dv.last().0, 0);
        assert forall|k: int| 0 <= k < assigned_of(dv, nv).len() implies 0 <= (
        #[trigger] assigned_of(dv, nv)[k]).0 < nv.len() by {
            if k < assigned_of(d2, nv).len() {
                assert(assigned_of(dv, nv)[k] == assigned_of(d2, nv)[k]);
            }
        }
    }
}

/// Each value below the bound appears exactly once in the index range.
proof fn lemma_index_range_count(len: int, j: int)
    requires
        len >= 0,
    ensures
        index_range(len).to_multiset().count(j) == if 0 <= j < len {
            1int
        } else {
            0int
        },
    decreases len,
{
    broadcast use vstd::seq_lib::group_to_multiset_ensures;

    if len == 0 {
        assert(index_range(0) =~= Seq::<int>::empty());
        assert(Seq::<int>::empty().to_multiset().count(j) == 0);
    } else {
        lemma_index_range_count(len - 1, j);
        assert(index_range(len) =~= index_range(len - 1).push(len - 1));
        vstd::seq_lib::to_multiset_build(index_range(len - 1), len - 1);
    }
}

/// The law of the single-pass drain: over a page table of distinct names,
/// a drain that yields each table name exactly once assigns every logical
/// page index exactly once — no page is missed, none is produced twice,
/// whatever order the archive's physical layout dictated.
pub proof fn lemma_complete_drain_is_permutation(dv: Seq<(Seq<u8>, Seq<u8>)>, nv: Seq<Seq<u8>>)
    requires
        distinct_names(nv),
        forall|n: Seq<u8>| nv.contains(n) ==> drained_names(dv).to_multiset().count(n) == 1,
    ensures
        assigned_indices(assigned_of(dv, nv)).to_multiset() == index_range(
            nv.len() as int,
        ).to_multiset(),
{
    broadcast use vstd::seq_lib::group_to_multiset_ensures;

    let got = assigned_indices(assigned_of(dv, nv)).to_multiset();
    let want = index_range(nv.len() as int).to_multiset();
    assert forall|j: int| #[trigger] got.count(j) == want.count(j) by {
        lemma_index_range_count(nv.len() as int, j);
        if 0 <= j < nv.len() {
            lemma_assigned_count(dv, nv, j);
            assert(nv.contains(nv[j]));
        } else {
            lemma_assigned_in_range(dv, nv);
            if got.count(j) > 0 {
                assert(assigned_indices(assigned_of(dv, nv)).contains(j));
                let w = choose|w: int|
                    0 <= w < assigned_indices(assigned_of(dv, nv)).len() && assigned_indices(
                        assigned_of(dv, nv),
                    )[w] == j;
                assert(0 <= (assigned_of(dv, nv)[w]).0 < nv.len());
            }
        }
    }
    assert(got =~= want);
}


/// The drain law, stated against what the single-pass drain promises: a
/// drained list that carries exactly the archive's entries assigns every
/// logical page index exactly once, provided the page table's names are
/// distinct and each stands on exactly one archive entry.
pub proof fn lemma_decode_all_permutation(
    dv: Seq<(Seq<u8>, Seq<u8>)>,
    entries: Seq<(Seq<u8>, Seq<u8>)>,
    nv: Seq<Seq<u8>>,
)
    requires
        dv.to_multiset() == entries.to_multiset(),
        distinct_names(nv),
        forall|n: Seq<u8>| nv.contains(n) ==> drained_names(entries).to_multiset().count(n)
            == 1,
    ensures
        assigned_indices(assigned_of(dv, nv)).to_multiset() == index_range(
            nv.len() as int,
        ).to_multiset(),
{
    crate::order::lemma_map_multiset(dv, entries, |p: (Seq<u8>, Seq<u8>)| p.0);
    assert(drained_names(dv).to_multiset() == drained_names(entries).to_multiset());
    lemma_complete_drain_is_permutation(dv, nv);
}

} // verus!
