use vstd::prelude::*;
use vstd::string::StrSliceExecFns;

use crate::config::MediaSource;

verus! {

/// A media input the pipeline can be asked to play: a still image file, a
/// video file, or a webcam device (named on the command line, but with no
/// capture path behind it).
#[derive(Debug, Clone, PartialEq, Eq)]
pub enum MediaInput {
    Image(String),
    Video(String),
    WebCam(u32),
}

/// Why an input could not be accepted.
#[derive(Clone, Copy, PartialEq, Eq, Structural, Debug)]
pub enum MediaError {
    /// The file's extension names no supported image or video format.
    UnsupportedMediaType,
    /// The file source was chosen but no path was given.
    MissingPath,
    /// The named source exists only as a configuration: nothing can
    /// capture from it.
    UnsupportedConfiguration,
}

impl MediaError {
    /// The message shown for the error.
    pub fn message(&self) -> (s: &'static str)
        ensures
            *self is UnsupportedMediaType ==> s@ == "Unsupported Media type"@,
            *self is MissingPath ==> s@ == "File path is required when source is 'file'"@,
            *self is UnsupportedConfiguration ==> s@ == "webcam capture is not supported"@,
    {
        match self {
            MediaError::UnsupportedMediaType => "Unsupported Media type",
            MediaError::MissingPath => "File path is required when source is 'file'",
            MediaError::UnsupportedConfiguration => "webcam capture is not supported",
        }
    }
}

/// Position `d` carries the path's extension: the last dot of the path's
/// final component, not at that component's start, with the extension's
/// characters after it.
pub open spec fn has_extension(s: Seq<char>, d: int) -> bool {
    &&& 0 < d < s.len()
    &&& s[d] == '.'
    &&& s[d - 1] != '/'
    &&& forall|j: int| d < j < s.len() ==> s[j] != '/' && s[j] != '.'
}

/// The extension the path carries at dot position `d`.
pub open spec fn ext_at(s: Seq<char>, d: int) -> Seq<char> {
    s.subrange(d + 1, s.len() as int)
}

/// The extensions read as video files.
pub open spec fn is_video_ext(e: Seq<char>) -> bool {
    e == "mp4"@ || e == "avi"@ || e == "mov"@ || e == "mkv"@
}

/// The extensions read as still images.
pub open spec fn is_image_ext(e: Seq<char>) -> bool {
    e == "jpg"@ || e == "jpeg"@ || e == "png"@ || e == "gif"@
}

/// A path carries at most one extension position.
pub proof fn lemma_extension_unique(s: Seq<char>, d1: int, d2: int)
    requires
        has_extension(s, d1),
        has_extension(s, d2),
    ensures
        d1 == d2,
{
    if d1 < d2 {
        assert(s[d2] == '.');
    } else if d2 < d1 {
        assert(s[d1] == '.');
    }
}

/// Whether the path's tail, from position `from`, spells exactly `lit`.
fn tail_equals(s: &str, from: usize, lit: &str) -> (b: bool)
    requires
        from <= s@.len(),
    ensures
        b == (s@.subrange(from as int, s@.len() as int) == lit@),
{
    let n = s.unicode_len();
    let m = lit.unicode_len();
    if n - from != m {
        proof {
            assert(s@.subrange(from as int, n as int).len() != lit@.len());
        }
        return false;
    }
    let mut j: usize = 0;
    while j < m
        invariant
            j <= m,
            m == lit@.len(),
            n == s@.len(),
            from + m == n,
            forall|t: int| 0 <= t < j ==> s@[from + t] == lit@[t],
        decreases m - j,
    {
        let sc = s.get_char(from + j);
        let lc = lit.get_char(j);
        if sc != lc {
            proof {
                assert(s@.subrange(from as int, n as int)[j as int] == s@[from + j]);
            }
            return false;
        }
        j = j + 1;
    }
    proof {
        assert(s@.subrange(from as int, n as int) =~= lit@);
    }
    true
}

/// Classifies a path by its file extension: mp4, avi, mov and mkv play as
/// video; jpg, jpeg, png and gif as still images; anything else, or a path
/// with no extension, is an unsupported media type.
pub fn detect_input_media_type(path: &str) -> (r: Result<MediaInput, MediaError>)
    ensures
        forall|d: int|
            has_extension(path@, d) && is_video_ext(ext_at(path@, d)) ==> r is Ok
                && r->Ok_0 is Video && r->Ok_0->Video_0@ == path@,
        forall|d: int|
            has_extension(path@, d) && is_image_ext(ext_at(path@, d)) ==> r is Ok
                && r->Ok_0 is Image && r->Ok_0->Image_0@ == path@,
        forall|d: int|
            has_extension(path@, d) && !is_video_ext(ext_at(path@, d)) && !is_image_ext(
                ext_at(path@, d),
            ) ==> r is Err,
        (forall|d: int| !has_extension(path@, d)) ==> r is Err,
        r is Err ==> r->Err_0 == MediaError::UnsupportedMediaType,
{
    proof {
        reveal_strlit("mp4");
        reveal_strlit("avi");
        reveal_strlit("mov");
        reveal_strlit("mkv");
        reveal_strlit("jpg");
        reveal_strlit("jpeg");
        reveal_strlit("png");
        reveal_strlit("gif");
        assert("mp4"@[0] == 'm' && "avi"@[0] == 'a' && "mov"@[0] == 'm' && "mkv"@[0] == 'm');
        assert("jpg"@[0] == 'j' && "jpeg"@[0] == 'j' && "png"@[0] == 'p' && "gif"@[0] == 'g');
    }
    let n = path.unicode_len();
    let mut i: usize = 0;
    let mut cs: usize = 0;
    let mut found = false;
    let mut d: usize = 0;
    while i < n
        invariant
            i <= n,
            n == path@.len(),
            cs <= i,
            cs == 0 || (cs - 1 < n && path@[cs as int - 1] == '/'),
            forall|j: int| cs <= j < i ==> path@[j] != '/',
            !found ==> forall|j: int| cs < j < i ==> path@[j] != '.',
            found ==> cs < d < i && path@[d as int] == '.',
            found ==> forall|j: int| d < j < i ==> path@[j] != '.',
        decreases n - i,
    {
        let c = path.get_char(i);
        if c == '/' {
            cs = i + 1;
            found = false;
        } else if c == '.' {
            if i > cs {
                found = true;
                d = i;
            }
        }
        i = i + 1;
    }
    if !found {
        proof {
            assert forall|dd: int| !has_extension(path@, dd) by {
                if has_extension(path@, dd) {
                    if dd < cs {
                        if dd == cs - 1 {
                            assert(path@[dd] == '/');
                        } else {
                            assert(path@[cs as int - 1] == '/');
                        }
                    } else if dd == cs {
                        if cs == 0 {
                        } else {
                            assert(path@[dd - 1] == '/');
                        }
                    } else {
                        assert(path@[dd] != '.');
                    }
                }
            }
        }
        return Err(MediaError::UnsupportedMediaType);
    }
    proof {
        assert(has_extension(path@, d as int));
        assert forall|dd: int| has_extension(path@, dd) implies dd == d as int by {
            lemma_extension_unique(path@, dd, d as int);
        }
    }
    let from = d + 1;
    let video = tail_equals(path, from, "mp4") || tail_equals(path, from, "avi") || tail_equals(
        path,
        from,
        "mov",
    ) || tail_equals(path, from, "mkv");
    if video {
        return Ok(MediaInput::Video(path.to_owned()));
    }
    let image = tail_equals(path, from, "jpg") || tail_equals(path, from, "jpeg") || tail_equals(
        path,
        from,
        "png",
    ) || tail_equals(path, from, "gif");
    if image {
        return Ok(MediaInput::Image(path.to_owned()));
    }
    Err(MediaError::UnsupportedMediaType)
}

impl MediaInput {
    /// Selects the media input the configuration asks for: a file plays by
    /// its extension and needs a non-empty path; the webcam source is an
    /// explicit unsupported configuration.
    pub fn from_cli(source: &MediaSource, device: u32, file: &str) -> (r: Result<
        MediaInput,
        MediaError,
    >)
        ensures
            *source is WebCam ==> r == Err::<MediaInput, MediaError>(
                MediaError::UnsupportedConfiguration,
            ),
            *source is File && file@.len() == 0 ==> r == Err::<MediaInput, MediaError>(
                MediaError::MissingPath,
            ),
            *source is File && file@.len() > 0 ==> {
                &&& (forall|d: int|
                    has_extension(file@, d) && is_video_ext(ext_at(file@, d)) ==> r is Ok
                        && r->Ok_0 is Video && r->Ok_0->Video_0@ == file@)
                &&& (forall|d: int|
                    has_extension(file@, d) && is_image_ext(ext_at(file@, d)) ==> r is Ok
                        && r->Ok_0 is Image && r->Ok_0->Image_0@ == file@)
                &&& (forall|d: int|
                    has_extension(file@, d) && !is_video_ext(ext_at(file@, d)) && !is_image_ext(
                        ext_at(file@, d),
                    ) ==> r is Err)
                &&& ((forall|d: int| !has_extension(file@, d)) ==> r is Err)
                &&& (r is Err ==> r->Err_0 == MediaError::UnsupportedMediaType)
            },
    {
        let _ = device;
        match source {
            MediaSource::File => {
                if file.unicode_len() == 0 {
                    Err(MediaError::MissingPath)
                } else {
                    detect_input_media_type(file)
                }
            },
            MediaSource::WebCam => Err(MediaError::UnsupportedConfiguration),
        }
    }
}

} // verus!
