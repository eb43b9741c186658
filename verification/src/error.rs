//! What can go wrong when a patch is read or used.
use crate::checksum::{hex_text, Checksum};
use crate::patch::Patch;
use crate::text::{decimal, push_decimal};
use vstd::prelude::*;

verus! {

/// Possible errors when parsing an UPS patch file.
#[derive(Debug)]
pub enum UpsParseError {
    /// The bytes are not laid out as a patch file. The text says what is
    /// missing.
    FormatMismatch(String),
    /// Calculated patch checksum doesn't match the one from the patch metadata. You can access the
    /// patch in `parsed_patch` in case you want to ignore checksum errors.
    PatchChecksumMismatch { parsed_patch: Patch, expected: Checksum, actual: Checksum },
}

pub type UpsParseResult<T> = Result<T, UpsParseError>;

impl UpsParseError {
    /// Whether this is a format mismatch that says `text`.
    pub open spec fn says(&self, text: Seq<char>) -> bool {
        self matches UpsParseError::FormatMismatch(said) && said@ == text
    }

    /// The error in words.
    pub open spec fn text(&self) -> Seq<char> {
        match self {
            UpsParseError::FormatMismatch(said) => "this doesn't seem to be an UPS file: "@
                + said@,
            UpsParseError::PatchChecksumMismatch { parsed_patch, expected, actual } =>
                "checksum mismatch for patch file: expected "@ + hex_text(expected.0, true)
                    + ", got "@ + hex_text(actual.0, true),
        }
    }

    /// The error in words.
    pub fn to_string(&self) -> (text: String)
        ensures
            text@ == self.text(),
    {
        match self {
            UpsParseError::FormatMismatch(said) => {
                let mut text = String::from_str("this doesn't seem to be an UPS file: ");
                text.append(said.as_str());
                text
            },
            UpsParseError::PatchChecksumMismatch { parsed_patch, expected, actual } => {
                let mut text = String::from_str("checksum mismatch for patch file: expected ");
                text.append(expected.to_string().as_str());
                text.append(", got ");
                text.append(actual.to_string().as_str());
                text
            },
        }
    }
}

/// Possible errors when applying or reverting an UPS patch.
#[derive(Debug, Clone, Copy, PartialEq, Eq, Structural)]
pub enum UpsPatchError {
    SourceMetadataMismatch(MetadataMismatch),
    DestMetadataMismatch(MetadataMismatch),
}

/// Kinds of metadata mismatches for [`UpsPatchError`].
#[derive(Debug, Clone, Copy, PartialEq, Eq, Structural)]
#[allow(inconsistent_fields)]
pub enum MetadataMismatch {
    Size { expected: usize, actual: usize },
    Checksum { expected: Checksum, actual: Checksum },
}

impl UpsPatchError {
    /// The error in words: the file it is about, then the mismatch.
    pub open spec fn text(&self) -> Seq<char> {
        match self {
            UpsPatchError::SourceMetadataMismatch(mismatch) => "source file "@ + mismatch.text(),
            UpsPatchError::DestMetadataMismatch(mismatch) => "destination file "@
                + mismatch.text(),
        }
    }

    /// The error in words.
    pub fn to_string(&self) -> (text: String)
        ensures
            text@ == self.text(),
    {
        match self {
            UpsPatchError::SourceMetadataMismatch(mismatch) => {
                let mut text = String::from_str("source file ");
                text.append(mismatch.to_string().as_str());
                text
            },
            UpsPatchError::DestMetadataMismatch(mismatch) => {
                let mut text = String::from_str("destination file ");
                text.append(mismatch.to_string().as_str());
                text
            },
        }
    }
}

impl MetadataMismatch {
    /// The mismatch in words: what was expected and what was found.
    pub open spec fn text(&self) -> Seq<char> {
        match self {
            MetadataMismatch::Size { expected, actual } => "size mismatch: expected "@ + decimal(
                *expected as nat,
            ) + ", got "@ + decimal(*actual as nat),
            MetadataMismatch::Checksum { expected, actual } => "checksum mismatch: expected "@
                + hex_text(expected.0, true) + ", got "@ + hex_text(actual.0, true),
        }
    }

    /// The mismatch in words.
    pub fn to_string(&self) -> (text: String)
        ensures
            text@ == self.text(),
    {
        match self {
            MetadataMismatch::Size { expected, actual } => {
                let mut text = String::from_str("size mismatch: expected ");
                push_decimal(&mut text, *expected);
                text.append(", got ");
                push_decimal(&mut text, *actual);
                text
            },
            MetadataMismatch::Checksum { expected, actual } => {
                let mut text = String::from_str("checksum mismatch: expected ");
                text.append(expected.to_string().as_str());
                text.append(", got ");
                text.append(actual.to_string().as_str());
                text
            },
        }
    }

    /// The mismatch of two sizes, or `None` where they are equal.
    pub fn size(expected: usize, actual: usize) -> (r: Option<Self>)
        ensures
            r == if expected == actual {
                None
            } else {
                Some(MetadataMismatch::Size { expected, actual })
            },
    {
        if expected == actual {
            None
        } else {
            Some(MetadataMismatch::Size { expected, actual })
        }
    }

    /// The mismatch of two checksums, or `None` where they are equal.
    pub fn checksum(expected: Checksum, actual: Checksum) -> (r: Option<Self>)
        ensures
            r == if expected == actual {
                None
            } else {
                Some(MetadataMismatch::Checksum { expected, actual })
            },
    {
        if expected == actual {
            None
        } else {
            Some(MetadataMismatch::Checksum { expected, actual })
        }
    }
}

/// Collection of errors returned from patching. You can access the patched file in `output` in
/// case you want to ignore the errors. Use [`errors`](UpsPatchErrors::errors) and
/// [`into_errors`](UpsPatchErrors::into_errors) to inspect errors.
#[derive(Debug)]
pub struct UpsPatchErrors {
    /// Possibly invalid output from the patch operation.
    pub output: Vec<u8>,
    /// The error that is always there: the list of errors is never empty.
    pub fst_error: UpsPatchError,
    /// The other errors.
    pub errors: Vec<UpsPatchError>,
}

pub type UpsPatchResult<T> = Result<T, UpsPatchErrors>;

/// The order in which a list of recorded errors is reported: the last one
/// recorded comes first, the others follow as they were recorded.
pub open spec fn reported(recorded: Seq<UpsPatchError>) -> Seq<UpsPatchError>
    recommends
        recorded.len() > 0,
{
    seq![recorded.last()] + recorded.drop_last()
}

/// The errors of a list in words, each behind a comma.
pub open spec fn listed_text(errors: Seq<UpsPatchError>) -> Seq<char>
    decreases errors.len(),
{
    if errors.len() == 0 {
        Seq::empty()
    } else {
        listed_text(errors.drop_last()) + ", "@ + errors.last().text()
    }
}

impl UpsPatchErrors {
    /// The errors in words: the one error alone, or all of them in a row.
    pub open spec fn text(&self) -> Seq<char> {
        if self.errors@.len() == 0 {
            self.fst_error.text()
        } else {
            "multiple errors: "@ + self.fst_error.text() + listed_text(self.errors@)
        }
    }

    /// The errors in words.
    pub fn to_string(&self) -> (text: String)
        ensures
            text@ == self.text(),
    {
        if self.errors.len() == 0 {
            return self.fst_error.to_string();
        }
        let mut text = String::from_str("multiple errors: ");
        text.append(self.fst_error.to_string().as_str());
        let ghost front = text@;
        let mut i: usize = 0;
        while i < self.errors.len()
            invariant
                i <= self.errors@.len(),
                text@ == front + listed_text(self.errors@.take(i as int)),
            decreases self.errors@.len() - i,
        {
            let ghost before = text@;
            text.append(", ");
            text.append(self.errors[i].to_string().as_str());
            i += 1;
            proof {
                let now = self.errors@.take(i as int);
                assert(now.drop_last() == self.errors@.take(i - 1));
                assert(now.last() == self.errors@[i - 1]);
                assert(text@ == before + ", "@ + self.errors@[i - 1].text());
            }
        }
        assert(self.errors@.take(i as int) == self.errors@);
        text
    }

    /// All errors, in the order in which they are reported. Never empty.
    pub open spec fn listed(&self) -> Seq<UpsPatchError> {
        seq![self.fst_error] + self.errors@
    }

    /// There is always a first error.
    pub proof fn lemma_listed_nonempty(&self)
        ensures
            self.listed().len() >= 1,
    {
    }

    /// Smart constructor, returns `Err` if `errors` is not empty, else returns `Ok(output)`.
    pub fn check_errors(output: Vec<u8>, errors: Vec<UpsPatchError>) -> (r: Result<Vec<u8>, Self>)
        ensures
            match r {
                Ok(v) => errors@.len() == 0 && v == output,
                Err(e) => errors@.len() > 0 && e.output == output && e.listed() == reported(
                    errors@,
                ),
            },
    {
        let mut errors = errors;
        match errors.pop() {
            Some(fst_error) => Err(UpsPatchErrors { output, fst_error, errors }),
            None => Ok(output),
        }
    }

    /// All patching errors, first the one that is always there.
    pub fn errors(&self) -> (r: Vec<UpsPatchError>)
        ensures
            r@ == self.listed(),
    {
        let mut all: Vec<UpsPatchError> = Vec::new();
        all.push(self.fst_error);
        let mut i: usize = 0;
        while i < self.errors.len()
            invariant
                i <= self.errors@.len(),
                all@ == seq![self.fst_error] + self.errors@.take(i as int),
            decreases self.errors@.len() - i,
        {
            all.push(self.errors[i]);
            i += 1;
            assert(self.errors@.take(i as int) == self.errors@.take(i - 1).push(
                self.errors@[i - 1],
            ));
        }
        assert(self.errors@.take(i as int) == self.errors@);
        all
    }

    /// All patching errors, as `errors` gives them.
    pub fn iter(&self) -> (r: Vec<UpsPatchError>)
        ensures
            r@ == self.listed(),
    {
        self.errors()
    }

    /// Consume self and return all patching errors.
    pub fn into_errors(self) -> (r: Vec<UpsPatchError>)
        ensures
            r@ == self.listed(),
    {
        self.errors()
    }
}

} // verus!
