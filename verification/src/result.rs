//! What a synthesis ends in: the accumulator and the module that the
//! grammar made of its text, or an empty module where it made none.

use vstd::prelude::*;
use crate::diagnostic::Rejection;
use crate::model::SourceModel;
use crate::source::Sourcecode;

verus! {

/// The output of the transformations provided by this crate.
pub struct ShaderResult<L> {
    source: Sourcecode<L>,
    module: naga::Module,
}

/// What a `ShaderResult` stands for in contracts.
pub struct ShaderModel<L> {
    pub source: SourceModel<L>,
    pub module: naga::Module,
}

impl<L> View for ShaderResult<L> {
    type V = ShaderModel<L>;

    closed spec fn view(&self) -> ShaderModel<L> {
        ShaderModel { source: self.source@, module: self.module }
    }
}

impl<L: Copy> ShaderResult<L> {
    /// Puts an accumulator and the module made of its text together.
    pub fn new(source: Sourcecode<L>, module: naga::Module) -> (result: Self)
        ensures
            result@ == (ShaderModel { source: source@, module }),
    {
        ShaderResult { source, module }
    }

    /// The accumulator, with the text and the failures collected so far.
    pub fn source(&self) -> (source: &Sourcecode<L>)
        ensures
            source@ == self@.source,
    {
        &self.source
    }

    /// The module.
    pub fn module(&self) -> (module: &naga::Module)
        ensures
            *module == self@.module,
    {
        &self.module
    }

    /// Takes in the validator's verdict on the module. A verdict in favour
    /// comes back as it is and changes nothing. A rejection is taken in as
    /// failures, as `report_validation_failure` says, and nothing comes back.
    /// The module stays as it was either way.
    pub fn validate(
        &mut self,
        verdict: Result<naga::valid::ModuleInfo, Rejection>,
    ) -> (info: Option<naga::valid::ModuleInfo>)
        ensures
            final(self)@.module == old(self)@.module,
            verdict matches Ok(found) ==> info == Some(found) && final(self)@ == old(self)@,
            verdict matches Err(why) ==> info is None
                && final(self)@.source == old(self)@.source.reject_validation(why@),
    {
        match verdict {
            Ok(found) => Some(found),
            Err(why) => {
                self.source.report_validation_failure(&why);
                None
            },
        }
    }
}

} // verus!
