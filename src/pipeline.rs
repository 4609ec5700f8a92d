use vstd::prelude::*;
use crate::image::Image;
use crate::matching::{candidates, lower_of, matches_any, strip_punct, supplement_target_string, text_matches, views};
use crate::region::Rect;

verus! {

/// Why a run ended without a redacted image.
#[derive(Clone, Copy, Debug, PartialEq, Eq, Structural)]
pub enum MaskMyNameError {
    ImageReadError(),
    MaskTextError(),
    TessInitError(),
    TessGetTextError(),
    MaskingBarCreationError(),
    NoMatchingString(),
}

impl MaskMyNameError {
    /// The message reported for the error.
    pub fn message(&self) -> (r: String)
        ensures
            r@ == error_message(*self),
    {
        match self {
            MaskMyNameError::ImageReadError() => "Read image failed.".to_string(),
            MaskMyNameError::MaskTextError() => "Mask text failed.".to_string(),
            MaskMyNameError::TessInitError() => "Failed to initialize Tesseract.".to_string(),
            MaskMyNameError::TessGetTextError() => "Failed to get text from Tesseract.".to_string(),
            MaskMyNameError::MaskingBarCreationError() => "Failed to create black bar Mat.".to_string(),
            MaskMyNameError::NoMatchingString() => "No matching string found.".to_string(),
        }
    }
}

/// The message of each error.
pub open spec fn error_message(e: MaskMyNameError) -> Seq<char> {
    match e {
        MaskMyNameError::ImageReadError() => "Read image failed."@,
        MaskMyNameError::MaskTextError() => "Mask text failed."@,
        MaskMyNameError::TessInitError() => "Failed to initialize Tesseract."@,
        MaskMyNameError::TessGetTextError() => "Failed to get text from Tesseract."@,
        MaskMyNameError::MaskingBarCreationError() => "Failed to create black bar Mat."@,
        MaskMyNameError::NoMatchingString() => "No matching string found."@,
    }
}

/// The decisions of one run over the candidate regions of one image: the
/// strings searched for, and whether some region has matched so far.
pub struct MaskRun {
    pub strings: Vec<String>,
    pub matched: bool,
}

impl MaskRun {
    /// Starts a run looking for `target`; nothing has matched yet.
    pub fn new(target: &String) -> (r: MaskRun)
        ensures
            views(r.strings@) == candidates(target@),
            !r.matched,
    {
        MaskRun { strings: supplement_target_string(target), matched: false }
    }

    /// Takes what the recognizer returned for `region` of `image`: `None`
    /// where it failed, which ends the run with `TessGetTextError`. Where the
    /// normalized text contains a candidate, the region is redacted and the
    /// run has matched.
    pub fn on_recognized(&mut self, image: &mut Image, region: Rect, text: Option<String>) -> (r:
        Result<(), MaskMyNameError>)
        requires
            old(image).wf(),
            region.fits(old(image).rows as int, old(image).cols as int),
        ensures
            final(self).strings == old(self).strings,
            match text {
                None => {
                    &&& r == Err::<(), MaskMyNameError>(MaskMyNameError::TessGetTextError())
                    &&& final(self).matched == old(self).matched
                    &&& *final(image) == *old(image)
                },
                Some(t) => {
                    let hit = matches_any(strip_punct(lower_of(t@)), views(old(self).strings@));
                    &&& r == Ok::<(), MaskMyNameError>(())
                    &&& final(self).matched == (old(self).matched || hit)
                    &&& hit ==> final(image).redaction_of(*old(image), region)
                    &&& !hit ==> *final(image) == *old(image)
                },
            },
    {
        match text {
            None => Err(MaskMyNameError::TessGetTextError()),
            Some(t) => {
                if text_matches(t.as_str(), &self.strings) {
                    image.redact(region);
                    self.matched = true;
                }
                Ok(())
            },
        }
    }

    /// Ends the run: the image where some region matched, else
    /// `NoMatchingString`.
    pub fn finish(self, image: Image) -> (r: Result<Image, MaskMyNameError>)
        ensures
            self.matched ==> r == Ok::<Image, MaskMyNameError>(image),
            !self.matched ==> r == Err::<Image, MaskMyNameError>(MaskMyNameError::NoMatchingString()),
    {
        if self.matched {
            Ok(image)
        } else {
            Err(MaskMyNameError::NoMatchingString())
        }
    }
}

} // verus!
