use vstd::prelude::*;

verus! {

#[verifier::external_type_specification]
#[verifier::external_body]
pub struct ExColorChoice(cli_table::ColorChoice);

#[verifier::external_type_specification]
#[verifier::external_body]
pub struct ExPathBuf(std::path::PathBuf);

#[verifier::external_type_specification]
#[verifier::external_body]
pub struct ExPath(std::path::Path);

/// Relies on `PathBuf::as_path`: a view of the same path.
#[verifier::external_body]
fn path_of(p: &std::path::PathBuf) -> &std::path::Path {
    p.as_path()
}

/// Settings that every client command shares.
pub struct GlobalSettings {
    color_policy: cli_table::ColorChoice,
    server_dir: std::path::PathBuf,
}

impl GlobalSettings {
    pub fn new(server_dir: std::path::PathBuf, color_policy: cli_table::ColorChoice) -> (r: GlobalSettings)
        ensures
            r.spec_color_policy() == color_policy,
    {
        GlobalSettings { color_policy, server_dir }
    }

    pub closed spec fn spec_color_policy(&self) -> cli_table::ColorChoice {
        self.color_policy
    }

    pub fn color_policy(&self) -> (r: cli_table::ColorChoice)
        ensures
            r == self.spec_color_policy(),
    {
        self.color_policy
    }

    pub fn server_directory(&self) -> &std::path::Path {
        path_of(&self.server_dir)
    }
}

} // verus!
