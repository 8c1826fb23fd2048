//! Package records and the local package manager: where packages are
//! cached and installed, and the placeholder content generated for
//! installed package files.
use vstd::prelude::*;
use vstd::string::StringExecFns;

use crate::config::Config;
use crate::error::TpmgrError;
use crate::text::{contains_seq, contains_sub, str_eq};

verus! {

/// A package as a search result lists it.
#[derive(Debug, Clone)]
pub struct Package {
    pub name: String,
    pub version: String,
    pub description: String,
    pub dependencies: Vec<String>,
    pub files: Vec<String>,
    pub size: u64,
}

/// What a repository reports about one package.
#[derive(Debug, Clone)]
pub struct PackageInfo {
    pub name: String,
    pub version: String,
    pub description: String,
    pub dependencies: Vec<String>,
    pub download_url: String,
    pub checksum: String,
}

/// Relies on dirs::cache_dir: the platform's cache directory, if the
/// platform reports one; the result depends on the environment.
#[verifier::external_body]
fn platform_cache_dir() -> (r: Option<String>) {
    dirs::cache_dir().map(|p| p.to_string_lossy().to_string())
}

/// Relies on dirs::data_dir: the platform's data directory, if the
/// platform reports one; the result depends on the environment.
#[verifier::external_body]
fn platform_data_dir() -> (r: Option<String>) {
    dirs::data_dir().map(|p| p.to_string_lossy().to_string())
}

/// The fixed option-swallowing preamble of a generated package file.
pub open spec fn basic_options_spec() -> Seq<char> {
    "% Accept and ignore options\n\\DeclareOption*{\\relax}\n\\ProcessOptions\\relax"@
}

/// The extra commands a generated package file defines for a few
/// well-known packages.
pub open spec fn package_commands_spec(name: Seq<char>) -> Seq<char> {
    if name == "geometry"@ {
        "\n% Provide basic geometry commands\n\\newcommand{\\geometry}[1]{\\relax}"@
    } else if name == "fancyhdr"@ {
        "\n% Define basic commands\n\\newcommand{\\fancyhf}[1]{\\relax}\n\\newcommand{\\fancyhead}[1]{\\relax}\n\\newcommand{\\fancyfoot}[1]{\\relax}"@
    } else if name == "xcolor"@ {
        "\n% Define color commands\n\\newcommand{\\textcolor}[2]{#2}\n\\newcommand{\\colorbox}[2]{#2}\n\\newcommand{\\fcolorbox}[3]{#3}"@
    } else if name == "hyperref"@ {
        "\n% Define hyperref commands\n\\newcommand{\\href}[2]{#2}\n\\newcommand{\\url}[1]{\\texttt{#1}}"@
    } else if name == "url"@ {
        "\n% Define url command\n\\newcommand{\\url}[1]{\\texttt{#1}}"@
    } else if name == "natbib"@ {
        "\n% Define citation commands\n\\newcommand{\\cite}[1]{[#1]}\n\\newcommand{\\citep}[1]{(#1)}\n\\newcommand{\\citet}[1]{#1}"@
    } else {
        Seq::empty()
    }
}

/// The package-specific body of a generated package file.
pub open spec fn package_specific_spec(name: Seq<char>) -> Seq<char> {
    if name == "inputenc"@ {
        basic_options_spec()
            + "\n% Provide basic functionality\n\\def\\@inpenc@test#1{\\relax}"@
    } else if name == "fontenc"@ || name == "geometry"@ || name == "fancyhdr"@ || name == "xcolor"@
        || name == "hyperref"@ {
        basic_options_spec() + package_commands_spec(name)
    } else if name == "amssymb"@ {
        "% Define checkmark symbol\n\\def\\checkmark{$\\surd$}"@
    } else if name == "graphicx"@ {
        basic_options_spec()
            + "\n% Define includegraphics command (placeholder)\n\\newcommand{\\includegraphics}[2][]{\\textbf{[Image: #2]}}"@
    } else if name == "minted"@ {
        "% Define a simple minted environment for testing\n\\newenvironment{minted}[1]{%\n    \\begin{quote}%\n    \\ttfamily%\n    \\textbf{Code in #1:}\\\\%\n}{%\n    \\end{quote}%\n}\n\n% Define other minted commands\n\\newcommand{\\mint}[2]{\\texttt{#2}}\n\\newcommand{\\mintinline}[2]{\\texttt{#2}}"@
    } else if name == "tikz"@ {
        "% Define basic tikz environment\n\\newenvironment{tikzpicture}{\\begin{center}\\textbf{[TikZ Picture]}}{\\end{center}}\n\\newcommand{\\draw}[1]{\\relax}"@
    } else if name == "pgfplots"@ {
        "% Require tikz\n\\RequirePackage{tikz}\n\n% Define basic commands\n\\newcommand{\\pgfplotsset}[1]{\\relax}"@
    } else if name == "subcaption"@ {
        "% Define subcaption environment\n\\newenvironment{subfigure}[1]{\\begin{minipage}{#1}}{\\end{minipage}}"@
    } else if name == "lipsum"@ {
        "% Define lipsum command\n\\newcommand{\\lipsum}[1][]{%\n    Lorem ipsum dolor sit amet, consectetur adipiscing elit. Sed do eiusmod tempor incididunt ut labore et dolore magna aliqua.%\n}"@
    } else {
        basic_options_spec()
    }
}

/// The comment-and-declaration header of a generated package file.
pub open spec fn package_header_spec(name: Seq<char>) -> Seq<char> {
    "% Simple "@ + name + " package placeholder for testing\n\\ProvidesPackage{"@ + name
        + "}[2025/08/06 Test "@ + name + " package]\n\n"@
}

/// The whole content of a generated package file.
pub open spec fn package_content_spec(name: Seq<char>) -> Seq<char> {
    package_header_spec(name) + package_specific_spec(name)
}

/// Installs, removes and lists packages under a cache and an install
/// directory; the directories are plain path strings, joined with a slash.
pub struct PackageManager {
    pub global: bool,
    pub config: Config,
    pub cache_dir: String,
    pub install_dir: String,
}

impl PackageManager {
    /// A manager over the project-local directories, or over the
    /// platform's cache and data directories when `global` is set. The
    /// project configuration starts from its defaults; reading a stored
    /// one is its caller's affair.
    pub fn new(global: bool) -> (r: Result<PackageManager, TpmgrError>)
        ensures
            r matches Ok(m) && m.global == global && (if global {
                (exists|p: Seq<char>| m.cache_dir@ == p + "/tpmgr"@) && (exists|p: Seq<char>|
                    m.install_dir@ == p + "/tpmgr/packages"@)
            } else {
                m.cache_dir@ == ".tpmgr/cache"@ && m.install_dir@ == "packages"@
            }),
    {
        let cache_dir: String;
        let install_dir: String;
        if global {
            let base = match platform_cache_dir() {
                Some(p) => p,
                None => String::from_str("."),
            };
            cache_dir = base.concat("/tpmgr");
            let data = match platform_data_dir() {
                Some(p) => p,
                None => String::from_str("."),
            };
            install_dir = data.concat("/tpmgr/packages");
        } else {
            cache_dir = String::from_str(".tpmgr/cache");
            install_dir = String::from_str("packages");
        }
        Ok(PackageManager { global, config: Config::new(), cache_dir, install_dir })
    }

    /// The search path for locally installed package files.
    pub fn get_texinputs_path(&self) -> (r: String)
        ensures
            r@ == self.install_dir@,
    {
        self.install_dir.clone()
    }

    /// The whole placeholder content generated for one package file.
    pub fn generate_package_content(&self, package_name: &str) -> (r: String)
        ensures
            r@ == package_content_spec(package_name@),
    {
        let header = self.get_package_header(package_name);
        let body = self.get_package_specific_content(package_name);
        header.concat(body.as_str())
    }

    /// The header of a generated package file.
    pub fn get_package_header(&self, package_name: &str) -> (r: String)
        ensures
            r@ == package_header_spec(package_name@),
    {
        String::from_str("% Simple ").concat(package_name).concat(
            " package placeholder for testing\n\\ProvidesPackage{",
        ).concat(package_name).concat("}[2025/08/06 Test ").concat(package_name).concat(
            " package]\n\n",
        )
    }

    /// The package-specific body of a generated package file.
    pub fn get_package_specific_content(&self, package_name: &str) -> (r: String)
        ensures
            r@ == package_specific_spec(package_name@),
    {
        if str_eq(package_name, "inputenc") {
            self.get_basic_package_with_options().concat(
                "\n% Provide basic functionality\n\\def\\@inpenc@test#1{\\relax}",
            )
        } else if str_eq(package_name, "fontenc") || str_eq(package_name, "geometry") || str_eq(
            package_name,
            "fancyhdr",
        ) || str_eq(package_name, "xcolor") || str_eq(package_name, "hyperref") {
            let cmds = self.get_package_commands(package_name);
            self.get_basic_package_with_options().concat(cmds.as_str())
        } else if str_eq(package_name, "amssymb") {
            String::from_str("% Define checkmark symbol\n\\def\\checkmark{$\\surd$}")
        } else if str_eq(package_name, "graphicx") {
            self.get_basic_package_with_options().concat(
                "\n% Define includegraphics command (placeholder)\n\\newcommand{\\includegraphics}[2][]{\\textbf{[Image: #2]}}",
            )
        } else if str_eq(package_name, "minted") {
            String::from_str(
                "% Define a simple minted environment for testing\n\\newenvironment{minted}[1]{%\n    \\begin{quote}%\n    \\ttfamily%\n    \\textbf{Code in #1:}\\\\%\n}{%\n    \\end{quote}%\n}\n\n% Define other minted commands\n\\newcommand{\\mint}[2]{\\texttt{#2}}\n\\newcommand{\\mintinline}[2]{\\texttt{#2}}",
            )
        } else if str_eq(package_name, "tikz") {
            String::from_str(
                "% Define basic tikz environment\n\\newenvironment{tikzpicture}{\\begin{center}\\textbf{[TikZ Picture]}}{\\end{center}}\n\\newcommand{\\draw}[1]{\\relax}",
            )
        } else if str_eq(package_name, "pgfplots") {
            String::from_str(
                "% Require tikz\n\\RequirePackage{tikz}\n\n% Define basic commands\n\\newcommand{\\pgfplotsset}[1]{\\relax}",
            )
        } else if str_eq(package_name, "subcaption") {
            String::from_str(
                "% Define subcaption environment\n\\newenvironment{subfigure}[1]{\\begin{minipage}{#1}}{\\end{minipage}}",
            )
        } else if str_eq(package_name, "lipsum") {
            String::from_str(
                "% Define lipsum command\n\\newcommand{\\lipsum}[1][]{%\n    Lorem ipsum dolor sit amet, consectetur adipiscing elit. Sed do eiusmod tempor incididunt ut labore et dolore magna aliqua.%\n}",
            )
        } else {
            self.get_basic_package_with_options()
        }
    }

    /// The option-swallowing preamble.
    pub fn get_basic_package_with_options(&self) -> (r: String)
        ensures
            r@ == basic_options_spec(),
    {
        String::from_str(
            "% Accept and ignore options\n\\DeclareOption*{\\relax}\n\\ProcessOptions\\relax",
        )
    }

    /// The extra commands defined for a few well-known packages.
    pub fn get_package_commands(&self, package_name: &str) -> (r: String)
        ensures
            r@ == package_commands_spec(package_name@),
    {
        if str_eq(package_name, "geometry") {
            String::from_str(
                "\n% Provide basic geometry commands\n\\newcommand{\\geometry}[1]{\\relax}",
            )
        } else if str_eq(package_name, "fancyhdr") {
            String::from_str(
                "\n% Define basic commands\n\\newcommand{\\fancyhf}[1]{\\relax}\n\\newcommand{\\fancyhead}[1]{\\relax}\n\\newcommand{\\fancyfoot}[1]{\\relax}",
            )
        } else if str_eq(package_name, "xcolor") {
            String::from_str(
                "\n% Define color commands\n\\newcommand{\\textcolor}[2]{#2}\n\\newcommand{\\colorbox}[2]{#2}\n\\newcommand{\\fcolorbox}[3]{#3}",
            )
        } else if str_eq(package_name, "hyperref") {
            String::from_str(
                "\n% Define hyperref commands\n\\newcommand{\\href}[2]{#2}\n\\newcommand{\\url}[1]{\\texttt{#1}}",
            )
        } else if str_eq(package_name, "url") {
            String::from_str("\n% Define url command\n\\newcommand{\\url}[1]{\\texttt{#1}}")
        } else if str_eq(package_name, "natbib") {
            String::from_str(
                "\n% Define citation commands\n\\newcommand{\\cite}[1]{[#1]}\n\\newcommand{\\citep}[1]{(#1)}\n\\newcommand{\\citet}[1]{#1}",
            )
        } else {
            String::new()
        }
    }

    /// What a repository would report for a package: a fixed version and a
    /// download location derived from the name.
    pub fn get_package_info(&self, package_name: &str) -> (r: Result<PackageInfo, TpmgrError>)
        ensures
            r matches Ok(info) && info.name@ == package_name@ && info.version@ == "1.0.0"@
                && info.description@ == "Description for "@ + package_name@ && info.dependencies@.len()
                == 0 && info.download_url@ == "https://ctan.org/tex-archive/macros/latex/contrib/"@
                + package_name@ + ".tar.gz"@ && info.checksum@ == "sha256:placeholder"@,
    {
        Ok(
            PackageInfo {
                name: crate::text::str_copy(package_name),
                version: String::from_str("1.0.0"),
                description: String::from_str("Description for ").concat(package_name),
                dependencies: Vec::new(),
                download_url: String::from_str(
                    "https://ctan.org/tex-archive/macros/latex/contrib/",
                ).concat(package_name).concat(".tar.gz"),
                checksum: String::from_str("sha256:placeholder"),
            },
        )
    }

    /// The built-in search results: fixed entries for queries naming the
    /// AMS or geometry families, nothing else.
    pub fn search(&self, query: &str) -> (r: Result<Vec<Package>, TpmgrError>)
        ensures
            r matches Ok(v) && {
                let has_ams = contains_seq(query@, "ams"@);
                let has_geo = contains_seq(query@, "geometry"@);
                &&& v@.len() == (if has_ams {
                    1int
                } else {
                    0int
                }) + (if has_geo {
                    1int
                } else {
                    0int
                })
                &&& has_ams ==> v@[0].name@ == "amsmath"@ && v@[0].version@ == "2.17"@
                &&& has_geo ==> v@[v@.len() - 1].name@ == "geometry"@ && v@[v@.len() - 1].version@
                    == "5.9"@
            },
    {
        let mut results: Vec<Package> = Vec::new();
        if contains_sub(query, "ams") {
            let mut files: Vec<String> = Vec::new();
            files.push(String::from_str("amsmath.sty"));
            results.push(
                Package {
                    name: String::from_str("amsmath"),
                    version: String::from_str("2.17"),
                    description: String::from_str("AMS mathematical facilities for LaTeX"),
                    dependencies: Vec::new(),
                    files,
                    size: 45672,
                },
            );
        }
        if contains_sub(query, "geometry") {
            let mut deps: Vec<String> = Vec::new();
            deps.push(String::from_str("keyval"));
            let mut files: Vec<String> = Vec::new();
            files.push(String::from_str("geometry.sty"));
            results.push(
                Package {
                    name: String::from_str("geometry"),
                    version: String::from_str("5.9"),
                    description: String::from_str(
                        "Flexible and complete interface to document dimensions",
                    ),
                    dependencies: deps,
                    files,
                    size: 78234,
                },
            );
        }
        Ok(results)
    }
}

} // verus!
