//! The mobi backend.
//!
//! A mobi book stores its images as raw records from the first-image
//! record onward.  The backend keeps, in record order, every record that
//! the image crate recognizes as an image format.

use crate::err::OpenError;
use crate::ident::{sha256_digest, sha256_of};
use crate::imgmeta::{guess_format_ok, image_format_known};
use vstd::prelude::*;

verus! {

/// The raw records of a mobi book from its first-image record onward, or
/// nothing when the bytes are not a mobi book; the result depends on the
/// bytes alone.
pub uninterp spec fn mobi_records_of(data: Seq<u8>) -> Option<Seq<Seq<u8>>>;

/// The mathematical value of a record list.
pub open spec fn record_views(s: Seq<Vec<u8>>) -> Seq<Seq<u8>> {
    s.map_values(|v: Vec<u8>| v@)
}

/// The predicate that keeps a record: its bytes are a recognized image.
pub open spec fn is_known_image() -> spec_fn(Seq<u8>) -> bool {
    |b: Seq<u8>| image_format_known(b)
}

/// Relies on mobi::Mobi::from_read and RawRecords::range: parses the book
/// and hands back the raw record contents from the first-image record on.
#[verifier::external_body]
fn mobi_image_records(data: &[u8]) -> (r: Result<Vec<Vec<u8>>, String>)
    ensures
        r matches Ok(v) ==> mobi_records_of(data@) == Some(record_views(v@)),
        r is Err ==> mobi_records_of(data@) is None,
{
    let mobi = match mobi::Mobi::from_read(std::io::Cursor::new(data)) {
        Ok(m) => m,
        Err(e) => return Err(format!("{}", e)),
    };
    let first = mobi.metadata.mobi.first_image_index as usize;
    let records = mobi.raw_records();
    let out: Vec<Vec<u8>> = records.range(first..).iter().map(
        |record| record.content.to_vec(),
    ).collect();
    Ok(out)
}

/// What a successfully opened mobi page source guarantees: the
/// fingerprint, and the pages as exactly the parsed records that the
/// image crate recognizes, in record order.
pub open spec fn mobi_source_spec(m: MobiSource, data: Seq<u8>) -> bool {
    &&& m.spec_sha256() == sha256_of(data)
    &&& mobi_records_of(data) matches Some(rs) && m.spec_images() == rs.filter(is_known_image())
}

/// The mobi backend: the container's fingerprint and the image records.
pub struct MobiSource {
    sha256: [u8; 32],
    images: Vec<Vec<u8>>,
}

impl MobiSource {
    /// The fingerprint of the container's bytes.
    pub closed spec fn spec_sha256(&self) -> Seq<u8> {
        self.sha256@
    }

    /// The decoded pages, in record order.
    pub closed spec fn spec_images(&self) -> Seq<Seq<u8>> {
        Seq::new(self.images@.len(), |i: int| self.images@[i]@)
    }

    /// The number of pages.
    pub fn page_count(&self) -> (r: usize)
        ensures
            r == self.spec_images().len(),
    {
        self.images.len()
    }

    /// The fingerprint of the container's bytes.
    pub fn sha256(&self) -> (r: &[u8; 32])
        ensures
            r@ == self.spec_sha256(),
    {
        &self.sha256
    }

    /// The bytes of page `index`; an index at or past the page count
    /// yields an empty result rather than an error.
    pub fn get_page_bytes(&self, index: usize) -> (r: Vec<u8>)
        ensures
            index < self.spec_images().len() ==> r@ == self.spec_images()[index as int],
            index >= self.spec_images().len() ==> r@ == Seq::<u8>::empty(),
    {
        if index < self.images.len() {
            self.images[index].clone()
        } else {
            Vec::new()
        }
    }

    /// Opens a mobi book: its pages are exactly the raw records from the
    /// first-image record onward that the image crate recognizes, in
    /// record order.  The open succeeds exactly when the bytes parse as a
    /// mobi book.
    pub fn new(data: Vec<u8>) -> (r: Result<MobiSource, OpenError>)
        ensures
            r matches Ok(m) ==> mobi_source_spec(m, data@),
            r is Ok <==> mobi_records_of(data@) is Some,
    {
        broadcast use vstd::prelude::Seq::lemma_filter_push;

        let sha256 = sha256_digest(data.as_slice());
        let records = match mobi_image_records(data.as_slice()) {
            Ok(v) => v,
            Err(m) => {
                return Err(OpenError::Invalid(m));
            },
        };
        let mut images: Vec<Vec<u8>> = Vec::new();
        let mut k: usize = 0;
        proof {
            assert(record_views(records@.subrange(0, 0)) =~= Seq::<Seq<u8>>::empty());
            assert(record_views(images@) =~= Seq::<Seq<u8>>::empty());
            assert(Seq::<Seq<u8>>::empty().filter(is_known_image()) =~= Seq::<Seq<u8>>::empty());
        }
        while k < records.len()
            invariant
                k <= records@.len(),
                record_views(images@) =~= record_views(records@).subrange(0, k as int).filter(
                    is_known_image(),
                ),
            decreases records@.len() - k,
        {
            let keep = guess_format_ok(records[k].as_slice());
            if keep {
                let page = records[k].clone();
                images.push(page);
            }
            proof {
                let pred = is_known_image();
                let pre = record_views(records@).subrange(0, k as int);
                let elem = record_views(records@)[k as int];
                assert(elem == records@[k as int]@);
                assert(pred(elem) == keep);
                assert(record_views(records@).subrange(0, k + 1 as int) =~= pre.push(elem));
                pre.lemma_filter_push(elem, pred);
                assert(pre.push(elem).filter(pred) == if pred(elem) {
                    pre.filter(pred).push(elem)
                } else {
                    pre.filter(pred)
                });
                if keep {
                    assert(record_views(images@) =~= pre.filter(pred).push(elem));
                }
            }
            k = k + 1;
        }
        proof {
            assert(record_views(records@).subrange(0, records@.len() as int) =~= record_views(
                records@,
            ));
        }
        let source = MobiSource { sha256, images };
        proof {
            assert(source.spec_images() =~= record_views(records@).filter(is_known_image()));
        }
        Ok(source)
    }
}

} // verus!
