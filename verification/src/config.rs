//! User configuration and where it is kept: under the user's configuration
//! directory (`$HOME/.config/AsfKai` on Unix, `%USERPROFILE%\AppData\Roaming\AsfKai`
//! on Windows), or in the working directory when neither variable is set.
use vstd::prelude::*;

verus! {

/// Settings that persist between runs.
#[derive(Clone, Copy, Debug, PartialEq, Eq)]
pub struct Config {
    pub vsync: bool,
}

impl Default for Config {
    fn default() -> (r: Config)
        ensures
            r == (Config { vsync: false }),
    {
        Config { vsync: false }
    }
}

pub open spec fn app_name() -> Seq<char> {
    seq!['A', 's', 'f', 'K', 'a', 'i']
}

pub open spec fn config_file() -> Seq<char> {
    seq!['c', 'o', 'n', 'f', 'i', 'g', '.', 'r', 'o', 'n']
}

/// The path of the configuration file, as the components that are joined in
/// order: the home directory when `HOME` is set, else the user profile when
/// `USERPROFILE` is set, else the file name alone.
pub open spec fn config_path_components(home: Option<Seq<char>>, user_profile: Option<Seq<char>>) -> Seq<
    Seq<char>,
> {
    match home {
        Some(h) => seq![h, seq!['.', 'c', 'o', 'n', 'f', 'i', 'g'], app_name(), config_file()],
        None => match user_profile {
            Some(p) => seq![
                p,
                seq!['A', 'p', 'p', 'D', 'a', 't', 'a'],
                seq!['R', 'o', 'a', 'm', 'i', 'n', 'g'],
                app_name(),
                config_file(),
            ],
            None => seq![config_file()],
        },
    }
}

pub open spec fn opt_string_view(s: Option<String>) -> Option<Seq<char>> {
    match s {
        Some(x) => Some(x@),
        None => None,
    }
}

pub open spec fn strings_view(v: Seq<String>) -> Seq<Seq<char>> {
    v.map_values(|s: String| s@)
}

fn literal(s: &str) -> (r: String)
    ensures
        r@ == s@,
{
    s.to_owned()
}

impl Config {
    /// The components of the configuration file's path, given the values of
    /// the `HOME` and `USERPROFILE` environment variables.
    pub fn config_path(home: Option<String>, user_profile: Option<String>) -> (r: Vec<String>)
        ensures
            strings_view(r@) == config_path_components(opt_string_view(home), opt_string_view(user_profile)),
    {
        proof {
            reveal_strlit(".config");
            reveal_strlit("AsfKai");
            reveal_strlit("config.ron");
            reveal_strlit("AppData");
            reveal_strlit("Roaming");
            assert(".config"@ =~= seq!['.', 'c', 'o', 'n', 'f', 'i', 'g']);
            assert("AsfKai"@ =~= app_name());
            assert("config.ron"@ =~= config_file());
            assert("AppData"@ =~= seq!['A', 'p', 'p', 'D', 'a', 't', 'a']);
            assert("Roaming"@ =~= seq!['R', 'o', 'a', 'm', 'i', 'n', 'g']);
        }
        let mut components: Vec<String> = Vec::new();
        match home {
            Some(h) => {
                components.push(h);
                components.push(literal(".config"));
                components.push(literal("AsfKai"));
            },
            None => match user_profile {
                Some(p) => {
                    components.push(p);
                    components.push(literal("AppData"));
                    components.push(literal("Roaming"));
                    components.push(literal("AsfKai"));
                },
                None => {},
            },
        }
        components.push(literal("config.ron"));
        assert(strings_view(components@) =~= config_path_components(
            opt_string_view(home),
            opt_string_view(user_profile),
        ));
        components
    }
}

} // verus!
