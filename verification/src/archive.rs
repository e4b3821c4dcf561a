//! The zip container of a package, held in memory. Reading an entry is
//! the zip crate's work.

use vstd::prelude::*;

verus! {

/// What reading the entry `name` of the zip archive `bytes` as text
/// gives: the text, or why it cannot be had.
pub uninterp spec fn archive_entry(bytes: Seq<u8>, name: Seq<char>) -> Result<Seq<char>, Seq<char>>;

/// `zip::ZipArchive::new` on the bytes, `by_name`, and the entry read to
/// its end as UTF-8. What comes back is a function of the bytes and the
/// name; a failure is handed out in the words of the zip crate or of the
/// reader.
#[verifier::external_body]
fn read_entry(bytes: &[u8], name: &str) -> (r: Result<String, String>)
    ensures
        r matches Ok(text) ==> archive_entry(bytes@, name@) matches Ok(t) && t == text@,
        r matches Err(why) ==> archive_entry(bytes@, name@) matches Err(w) && w == why@,
{
    let mut archive = zip::ZipArchive::new(std::io::Cursor::new(bytes)).map_err(|e| e.to_string())?;
    let mut entry = archive.by_name(name).map_err(|e| e.to_string())?;
    let mut text = String::new();
    std::io::Read::read_to_string(&mut entry, &mut text).map_err(|e| e.to_string())?;
    Ok(text)
}

/// A package file as it lies in memory.
#[derive(Debug)]
pub struct Archive {
    bytes: Vec<u8>,
}

impl View for Archive {
    type V = Seq<u8>;

    closed spec fn view(&self) -> Seq<u8> {
        self.bytes@
    }
}

impl Archive {
    /// The archive that the bytes of a container file make.
    pub fn new(bytes: Vec<u8>) -> (r: Archive)
        ensures
            r@ == bytes@,
    {
        Archive { bytes }
    }

    /// The entry `name` as text.
    pub fn read(&self, name: &str) -> (r: Result<String, String>)
        ensures
            (match archive_entry(self@, name@) {
                Ok(t) => r matches Ok(text) && text@ == t,
                Err(w) => r matches Err(why) && why@ == w,
            }),
    {
        read_entry(self.bytes.as_slice(), name)
    }
}

} // verus!
