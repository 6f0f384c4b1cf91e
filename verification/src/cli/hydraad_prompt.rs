use vstd::prelude::*;

verus! {

/// The interactive prompt's state: the labels of the active selections.
#[derive(Debug)]
pub struct HydraAdPrompt {
    dc_name: Option<String>,
    creds_name: Option<String>,
}

impl HydraAdPrompt {
    /// A prompt with no selections shown.
    pub fn new() -> (r: HydraAdPrompt)
        ensures
            r.spec_dc_name() is None,
            r.spec_creds_name() is None,
    {
        HydraAdPrompt { dc_name: Option::None, creds_name: Option::None }
    }

    /// The server label currently shown.
    pub closed spec fn spec_dc_name(&self) -> Option<String> {
        self.dc_name
    }

    /// The credential label currently shown.
    pub closed spec fn spec_creds_name(&self) -> Option<String> {
        self.creds_name
    }

    /// Show or clear the active server's label.
    pub fn set_dc_name(&mut self, dc_name: Option<String>)
        ensures
            final(self).spec_dc_name() == dc_name,
            final(self).spec_creds_name() == old(self).spec_creds_name(),
    {
        self.dc_name = dc_name;
    }

    /// Show or clear the active credential's label.
    pub fn set_credential_name(&mut self, creds_name: Option<String>)
        ensures
            final(self).spec_creds_name() == creds_name,
            final(self).spec_dc_name() == old(self).spec_dc_name(),
    {
        self.creds_name = creds_name;
    }

    /// The server label, for rendering.
    pub fn dc_name(&self) -> (r: &Option<String>)
        ensures
            r == &self.spec_dc_name(),
    {
        &self.dc_name
    }

    /// The credential label, for rendering.
    pub fn creds_name(&self) -> (r: &Option<String>)
        ensures
            r == &self.spec_creds_name(),
    {
        &self.creds_name
    }
}

} // verus!
