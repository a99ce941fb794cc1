use vstd::prelude::*;
use vstd::string::StringExecFns;
use crate::text::{decimal, decimal_string, push_text};

verus! {

/// Checks that pipeline artifacts are complete and consistent.
#[derive(Debug, Clone, Copy, PartialEq, Eq, Structural)]
pub struct PipelineValidator {
    pub strict_mode: bool,
}

impl PipelineValidator {
    /// A validator in strict mode.
    pub fn new() -> (r: Self)
        ensures
            r.strict_mode,
    {
        PipelineValidator { strict_mode: true }
    }

    /// A validator for development, which lets more through.
    pub fn lenient() -> (r: Self)
        ensures
            !r.strict_mode,
    {
        PipelineValidator { strict_mode: false }
    }
}

/// Errors, warnings and notes found by validation, each in the order found.
#[derive(Debug, Clone)]
pub struct ValidationReport {
    pub errors: Vec<String>,
    pub warnings: Vec<String>,
    pub info: Vec<String>,
}

pub open spec fn texts(v: Seq<String>) -> Seq<Seq<char>> {
    v.map_values(|s: String| s@)
}

impl ValidationReport {
    pub fn new() -> (r: Self)
        ensures
            r.errors@.len() == 0,
            r.warnings@.len() == 0,
            r.info@.len() == 0,
    {
        ValidationReport { errors: Vec::new(), warnings: Vec::new(), info: Vec::new() }
    }

    pub fn add_error(&mut self, message: &str)
        ensures
            texts(final(self).errors@) == texts(old(self).errors@).push(message@),
            final(self).warnings == old(self).warnings,
            final(self).info == old(self).info,
    {
        let ghost before = self.errors@;
        self.errors.push(String::from_str(message));
        assert(texts(self.errors@) =~= texts(before).push(message@));
    }

    pub fn add_warning(&mut self, message: &str)
        ensures
            texts(final(self).warnings@) == texts(old(self).warnings@).push(message@),
            final(self).errors == old(self).errors,
            final(self).info == old(self).info,
    {
        let ghost before = self.warnings@;
        self.warnings.push(String::from_str(message));
        assert(texts(self.warnings@) =~= texts(before).push(message@));
    }

    pub fn add_info(&mut self, message: &str)
        ensures
            texts(final(self).info@) == texts(old(self).info@).push(message@),
            final(self).errors == old(self).errors,
            final(self).warnings == old(self).warnings,
    {
        let ghost before = self.info@;
        self.info.push(String::from_str(message));
        assert(texts(self.info@) =~= texts(before).push(message@));
    }

    /// Validation passed: no errors.
    pub fn is_valid(&self) -> (r: bool)
        ensures
            r == (self.errors@.len() == 0),
    {
        self.errors.len() == 0
    }

    /// Errors and warnings together.
    pub fn issue_count(&self) -> (r: usize)
        requires
            self.errors@.len() + self.warnings@.len() <= usize::MAX,
        ensures
            r == self.errors@.len() + self.warnings@.len(),
    {
        self.errors.len() + self.warnings.len()
    }

    /// One line that says how validation went.
    pub fn summary(&self) -> (r: String)
        ensures
            self.errors@.len() == 0 && self.warnings@.len() == 0 ==> r@ == "Validation passed"@,
            self.errors@.len() == 0 && self.warnings@.len() > 0 ==> r@ == "Validation passed with "@
                + decimal(self.warnings@.len()) + " warnings"@,
            self.errors@.len() > 0 ==> r@ == "Validation failed: "@ + decimal(self.errors@.len())
                + " errors, "@ + decimal(self.warnings@.len()) + " warnings"@,
    {
        if self.errors.len() == 0 {
            if self.warnings.len() == 0 {
                String::from_str("Validation passed")
            } else {
                let mut r = String::from_str("Validation passed with ");
                let n = decimal_string(self.warnings.len() as u64);
                push_text(&mut r, n.as_str());
                push_text(&mut r, " warnings");
                r
            }
        } else {
            let mut r = String::from_str("Validation failed: ");
            let e = decimal_string(self.errors.len() as u64);
            push_text(&mut r, e.as_str());
            push_text(&mut r, " errors, ");
            let w = decimal_string(self.warnings.len() as u64);
            push_text(&mut r, w.as_str());
            push_text(&mut r, " warnings");
            r
        }
    }
}

} // verus!
