//! Welcome screen context data shared with the UI layer.
use vstd::prelude::*;

verus! {

/// Initial data used by the welcome tab when the application launches.
#[derive(Clone, Debug)]
pub struct WelcomeContext {
    pub headline: &'static str,
    pub tagline: &'static str,
}

/// The welcome tab's headline and tagline.
pub fn default_welcome_context() -> (c: WelcomeContext)
    ensures
        c.headline@ == "Let’s get writing"@,
        c.tagline@ == "GhostPad brings Windows 11 calm to Plasma’s power."@,
{
    WelcomeContext {
        headline: "Let’s get writing",
        tagline: "GhostPad brings Windows 11 calm to Plasma’s power.",
    }
}

} // verus!
