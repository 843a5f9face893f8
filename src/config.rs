use vstd::prelude::*;

use crate::scan::opt_view;

verus! {

/// The project configuration: the package and the toolchain settings.
pub struct Config {
    pub package: Package,
    pub system: System,
}

/// The toolchain settings; absent ones fall back to defaults.
pub struct System {
    pub compiler: Option<String>,
    pub fflags: Option<String>,
}

/// The package, whose name names the archive and the programs.
pub struct Package {
    pub name: String,
}

pub struct ConfigView {
    pub name: Seq<char>,
    pub compiler: Option<Seq<char>>,
    pub fflags: Option<Seq<char>>,
}

impl View for Config {
    type V = ConfigView;

    open spec fn view(&self) -> ConfigView {
        ConfigView {
            name: self.package.name@,
            compiler: opt_view(self.system.compiler),
            fflags: opt_view(self.system.fflags),
        }
    }
}

} // verus!
