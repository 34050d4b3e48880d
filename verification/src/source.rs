//! Classification of the source handed to the vendoring service: a plain
//! directory, or a tarball compressed with one of the four understood
//! algorithms, recognised by the file type inferred from its leading
//! bytes.

use vstd::prelude::*;
use vstd::string::*;

use crate::text::str_eq;

verus! {

/// The compression algorithms the service understands.
#[derive(Clone, Copy, Debug, PartialEq, Eq, Structural)]
pub enum Compression {
    Gz,
    Xz,
    Zst,
    Bz2,
}

impl Compression {
    /// The file-name extension of the algorithm.
    pub fn as_str(self) -> (r: &'static str)
        ensures
            self is Gz ==> r@ == "gz"@,
            self is Xz ==> r@ == "xz"@,
            self is Zst ==> r@ == "zst"@,
            self is Bz2 ==> r@ == "bz2"@,
    {
        match self {
            Compression::Gz => "gz",
            Compression::Xz => "xz",
            Compression::Zst => "zst",
            Compression::Bz2 => "bz2",
        }
    }
}

impl Default for Compression {
    /// Zstandard is the default algorithm.
    fn default() -> (r: Self)
        ensures
            r is Zst,
    {
        Compression::Zst
    }
}

/// A recognised source: a compressed tarball, or a plain directory.
#[derive(Debug)]
pub enum SupportedFormat {
    Compressed(Compression, String),
    Dir(String),
}

/// Mathematical view of a [`SupportedFormat`].
pub enum SupportedFormatV {
    Compressed(Compression, Seq<char>),
    Dir(Seq<char>),
}

impl View for SupportedFormat {
    type V = SupportedFormatV;

    open spec fn view(&self) -> SupportedFormatV {
        match self {
            SupportedFormat::Compressed(c, p) => SupportedFormatV::Compressed(*c, p@),
            SupportedFormat::Dir(p) => SupportedFormatV::Dir(p@),
        }
    }
}

/// A source that could not be recognised, with the offending kind or
/// extension.
#[derive(Debug)]
pub struct UnsupportedFormat {
    pub ext: String,
}

/// The source location handed to the service.
#[derive(Debug, Clone)]
pub struct Src {
    pub src: String,
}

impl Src {
    pub fn new(p: &str) -> (r: Self)
        ensures
            r.src@ == p@,
    {
        Src { src: p.to_owned() }
    }
}

/// The compression an archive mime type stands for.
pub fn classify_mime(mime: &str) -> (r: Option<Compression>)
    ensures
        mime@ == "application/gzip"@ ==> r == Option::Some(Compression::Gz),
        mime@ == "application/x-xz"@ ==> r == Option::Some(Compression::Xz),
        mime@ == "application/zstd"@ ==> r == Option::Some(Compression::Zst),
        mime@ == "application/x-bzip2"@ ==> r == Option::Some(Compression::Bz2),
        r is None <==> (mime@ != "application/gzip"@ && mime@ != "application/x-xz"@ && mime@
            != "application/zstd"@ && mime@ != "application/x-bzip2"@),
    {
    proof {
        reveal_strlit("application/gzip");
        reveal_strlit("application/x-xz");
        reveal_strlit("application/zstd");
        reveal_strlit("application/x-bzip2");
        assert("application/gzip"@[12] == 'g');
        assert("application/x-xz"@[12] == 'x');
        assert("application/zstd"@[12] == 'z');
        assert("application/gzip"@.len() == 16);
        assert("application/x-xz"@.len() == 16);
        assert("application/zstd"@.len() == 16);
        assert("application/x-bzip2"@.len() == 19);
        assert("application/gzip"@ != "application/x-xz"@);
        assert("application/gzip"@ != "application/zstd"@);
        assert("application/gzip"@ != "application/x-bzip2"@);
        assert("application/x-xz"@ != "application/zstd"@);
        assert("application/x-xz"@ != "application/x-bzip2"@);
        assert("application/zstd"@ != "application/x-bzip2"@);
    }
    if str_eq(mime, "application/gzip") {
        Some(Compression::Gz)
    } else if str_eq(mime, "application/x-xz") {
        Some(Compression::Xz)
    } else if str_eq(mime, "application/zstd") {
        Some(Compression::Zst)
    } else if str_eq(mime, "application/x-bzip2") {
        Some(Compression::Bz2)
    } else {
        None
    }
}

/// The mime type that `infer` assigns to a byte buffer, or none when the
/// buffer matches no known type.
pub uninterp spec fn inferred_mime(b: Seq<u8>) -> Option<Seq<char>>;

/// Relies on `infer::get` and `infer::Type::mime_type`: the inferred type
/// of a buffer, and its mime-type string, depend on the bytes alone.
#[verifier::external_body]
fn detect_mime(buf: &[u8]) -> (r: Option<String>)
    ensures
        match r {
            Option::Some(s) => inferred_mime(buf@) == Option::Some(s@),
            Option::None => inferred_mime(buf@) is None,
        },
{
    infer::get(buf).map(|t| t.mime_type().to_string())
}

/// Classifies a source for vendoring.  A directory is supported as it
/// is; a file is supported exactly when the type inferred from its
/// leading bytes is one of the four understood archive mime types, and
/// is otherwise reported with the inferred type (or with a fixed note
/// when no type could be inferred at all).
pub fn classify_source(is_file: bool, buf: &[u8], path: &str) -> (r: Result<
    SupportedFormat,
    UnsupportedFormat,
>)
    ensures
        !is_file ==> (r matches Ok(f) && f@ == SupportedFormatV::Dir(path@)),
        is_file ==> match inferred_mime(buf@) {
            Option::Some(m) => {
                &&& m == "application/gzip"@ ==> (r matches Ok(f) && f@
                    == SupportedFormatV::Compressed(Compression::Gz, path@))
                &&& m == "application/x-xz"@ ==> (r matches Ok(f) && f@
                    == SupportedFormatV::Compressed(Compression::Xz, path@))
                &&& m == "application/zstd"@ ==> (r matches Ok(f) && f@
                    == SupportedFormatV::Compressed(Compression::Zst, path@))
                &&& m == "application/x-bzip2"@ ==> (r matches Ok(f) && f@
                    == SupportedFormatV::Compressed(Compression::Bz2, path@))
                &&& (m != "application/gzip"@ && m != "application/x-xz"@ && m
                    != "application/zstd"@ && m != "application/x-bzip2"@) ==> (r matches Err(u)
                    && u.ext@ == m)
            },
            Option::None => r matches Err(u) && u.ext@ == "`File type is not known`"@,
        },
{
    if !is_file {
        return Ok(SupportedFormat::Dir(path.to_owned()));
    }
    match detect_mime(buf) {
        Some(m) => match classify_mime(m.as_str()) {
            Some(c) => Ok(SupportedFormat::Compressed(c, path.to_owned())),
            None => Err(UnsupportedFormat { ext: m }),
        },
        None => Err(UnsupportedFormat { ext: String::from_str("`File type is not known`") }),
    }
}

} // verus!
