//! What is known of a package, and what the user asked for.
use vstd::hash_map::StringHashMap;
use vstd::prelude::*;

use crate::table::PathTable;
use crate::text::{opt_text, texts};

verus! {

/// The format a package was read from.
pub enum Format {
    Rpm,
    /// Any other format, by the name it goes by.
    Other(String),
}

impl Format {
    /// The name that messages and generated files call the format by.
    pub open spec fn text(self) -> Seq<char> {
        match self {
            Format::Rpm => "rpm"@,
            Format::Other(name) => name@,
        }
    }

    /// The name that messages and generated files call the format by.
    pub fn name(&self) -> (r: &str)
        ensures
            r@ == self.text(),
    {
        match self {
            Format::Rpm => "rpm",
            Format::Other(name) => name.as_str(),
        }
    }
}

/// Everything known of a package.
pub struct PackageInfo {
    /// The file the package was read from.
    pub file: Vec<u8>,
    pub name: String,
    pub version: String,
    pub release: String,
    pub arch: String,
    pub changelog_text: String,
    pub summary: String,
    pub description: String,
    pub copyright: String,
    pub distribution: String,
    pub group: String,
    pub binary_info: String,
    pub original_format: Format,
    pub depends: Vec<String>,
    pub conffiles: Vec<String>,
    pub file_list: Vec<String>,
    pub use_scripts: bool,
    pub preinst: Option<String>,
    pub postinst: Option<String>,
    pub prerm: Option<String>,
    pub postrm: Option<String>,
    /// The maintainer scripts, by name.
    pub scripts: StringHashMap<String>,
    /// The owners to set after installation.
    pub owninfo: PathTable<String>,
    /// The modes to set after installation.
    pub modeinfo: PathTable<u32>,
}

/// Everything known of a package, as mathematical values.
#[verifier::ext_equal]
pub struct InfoView {
    pub file: Seq<u8>,
    pub name: Seq<char>,
    pub version: Seq<char>,
    pub release: Seq<char>,
    pub arch: Seq<char>,
    pub changelog_text: Seq<char>,
    pub summary: Seq<char>,
    pub description: Seq<char>,
    pub copyright: Seq<char>,
    pub distribution: Seq<char>,
    pub group: Seq<char>,
    pub binary_info: Seq<char>,
    pub original_format: Seq<char>,
    pub depends: Seq<Seq<char>>,
    pub conffiles: Seq<Seq<char>>,
    pub file_list: Seq<Seq<char>>,
    pub use_scripts: bool,
    pub preinst: Option<Seq<char>>,
    pub postinst: Option<Seq<char>>,
    pub prerm: Option<Seq<char>>,
    pub postrm: Option<Seq<char>>,
    pub scripts: Map<Seq<char>, String>,
    pub owninfo: Seq<(Seq<char>, Seq<char>)>,
    pub modeinfo: Seq<(Seq<char>, u32)>,
}

impl View for PackageInfo {
    type V = InfoView;

    open spec fn view(&self) -> InfoView {
        InfoView {
            file: self.file@,
            name: self.name@,
            version: self.version@,
            release: self.release@,
            arch: self.arch@,
            changelog_text: self.changelog_text@,
            summary: self.summary@,
            description: self.description@,
            copyright: self.copyright@,
            distribution: self.distribution@,
            group: self.group@,
            binary_info: self.binary_info@,
            original_format: self.original_format.text(),
            depends: texts(self.depends@),
            conffiles: texts(self.conffiles@),
            file_list: texts(self.file_list@),
            use_scripts: self.use_scripts,
            preinst: opt_text(self.preinst),
            postinst: opt_text(self.postinst),
            prerm: opt_text(self.prerm),
            postrm: opt_text(self.postrm),
            scripts: self.scripts@,
            owninfo: self.owninfo@,
            modeinfo: self.modeinfo@,
        }
    }
}

/// The package of which nothing is known.
pub open spec fn blank() -> InfoView {
    InfoView {
        file: seq![],
        name: seq![],
        version: seq![],
        release: seq![],
        arch: seq![],
        changelog_text: seq![],
        summary: seq![],
        description: seq![],
        copyright: seq![],
        distribution: seq![],
        group: seq![],
        binary_info: seq![],
        original_format: "rpm"@,
        depends: seq![],
        conffiles: seq![],
        file_list: seq![],
        use_scripts: false,
        preinst: None,
        postinst: None,
        prerm: None,
        postrm: None,
        scripts: Map::empty(),
        owninfo: seq![],
        modeinfo: seq![],
    }
}

impl Default for PackageInfo {
    /// The package of which nothing is known, to be filled in by whoever reads
    /// one. It counts as an RPM package until another format is set.
    fn default() -> (r: Self)
        ensures
            r@ == blank(),
    {
        let r = PackageInfo {
            file: Vec::new(),
            name: String::new(),
            version: String::new(),
            release: String::new(),
            arch: String::new(),
            changelog_text: String::new(),
            summary: String::new(),
            description: String::new(),
            copyright: String::new(),
            distribution: String::new(),
            group: String::new(),
            binary_info: String::new(),
            original_format: Format::Rpm,
            depends: Vec::new(),
            conffiles: Vec::new(),
            file_list: Vec::new(),
            use_scripts: false,
            preinst: None,
            postinst: None,
            prerm: None,
            postrm: None,
            scripts: StringHashMap::new(),
            owninfo: PathTable::new(),
            modeinfo: PathTable::new(),
        };
        assert(r@ =~= blank());
        r
    }
}

/// What the user asked for.
pub struct Args {
    /// The architecture to build for, in place of the package's own.
    pub target: Option<String>,
    /// Do not keep a copy of the unpacked tree.
    pub single: bool,
    /// Only generate the tree, build nothing.
    pub generate: bool,
    /// Use no patch.
    pub nopatch: bool,
    /// Accept a patch made for another version.
    pub anypatch: bool,
    /// The patch to use.
    pub patch: Option<Vec<u8>>,
    /// Fix the permissions of the packaged files.
    pub fixperms: bool,
}

} // verus!
