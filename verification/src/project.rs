//! The configuration file a new project starts with.
use vstd::prelude::*;

verus! {

/// The text of a new project's `tabforge.toml`: the song titled `name`
/// (artist unknown, 120 BPM, 4/4) and a standard-tuned 24-fret guitar.
pub open spec fn project_config(name: Seq<char>) -> Seq<char> {
    "# TabForge Project Configuration\n[song]\ntitle = \""@ + name
        + "\"\nartist = \"Unknown\"\nbpm = 120.0\ntime_signature = \"4/4\"\n\n[guitar]\ntuning = [\"E2\", \"A2\", \"D3\", \"G3\", \"B3\", \"E4\"]\nfrets = 24\n"@
}

/// The configuration text of a new project named `name`.
pub fn project_config_text(name: &str) -> (r: String)
    ensures
        r@ == project_config(name@),
{
    let mut out = String::from_str("# TabForge Project Configuration\n[song]\ntitle = \"");
    out.append(name);
    out.append("\"\nartist = \"Unknown\"\nbpm = 120.0\ntime_signature = \"4/4\"\n\n[guitar]\ntuning = [\"E2\", \"A2\", \"D3\", \"G3\", \"B3\", \"E4\"]\nfrets = 24\n");
    out
}

} // verus!
