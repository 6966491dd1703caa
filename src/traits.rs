//! What an input format and an output format offer.
use crate::bundle::{append_bundle, appends, compiles_to, ExtractedBundle, OsuBundle};
use crate::error::ConvertError;
use crate::types::{holds_media, Package};
use vstd::prelude::*;

verus! {

/// An input that adds its charts to a package.
pub trait AppendToUnivsrg: Sized {
    /// `after` is `before` with this input's charts added, and `r` lists
    /// the charts that were skipped.
    spec fn appended(&self, before: Package, after: Package, r: Seq<(usize, ConvertError)>) -> bool;

    fn append_to_univsrg(self, package: &mut Package) -> (r: Vec<(usize, ConvertError)>)
        requires
            old(package).resource_pool.wf(),
            holds_media(*old(package)),
        ensures
            final(package).resource_pool.wf(),
            holds_media(*final(package)),
            self.appended(*old(package), *final(package), r@),
    ;
}

/// A package that can be written as an output bundle of the game.
pub trait ToOsu {
    spec fn ready(&self) -> bool;

    /// `r` is what writing the package into a scratch directory gives, when
    /// that directory was found empty or not as `dir_is_empty` says.
    spec fn compiled(&self, dir_is_empty: bool, r: Result<OsuBundle, ConvertError>) -> bool;

    fn to_osu(&self, dir_is_empty: bool) -> (r: Result<OsuBundle, ConvertError>)
        requires
            self.ready(),
        ensures
            self.compiled(dir_is_empty, r),
    ;
}

/// A package that can be written in a second game's format; none is
/// implemented.
pub trait ToMalody {

}

impl AppendToUnivsrg for ExtractedBundle {
    open spec fn appended(
        &self,
        before: Package,
        after: Package,
        r: Seq<(usize, ConvertError)>,
    ) -> bool {
        appends(self.charts@, before, after, r)
    }

    /// Decodes the bundle's charts into `package`, clearing the path index
    /// first: see `append_bundle`.
    fn append_to_univsrg(self, package: &mut Package) -> (r: Vec<(usize, ConvertError)>) {
        append_bundle(package, self.charts, true)
    }
}

impl ToOsu for Package {
    open spec fn ready(&self) -> bool {
        self.resource_pool.wf() && holds_media(*self)
    }

    open spec fn compiled(&self, dir_is_empty: bool, r: Result<OsuBundle, ConvertError>) -> bool {
        &&& !dir_is_empty ==> r is Err && r->Err_0 == ConvertError::AlreadyExists
        &&& dir_is_empty ==> r is Ok && compiles_to(*self, r->Ok_0)
    }

    /// See `Package::compile`.
    fn to_osu(&self, dir_is_empty: bool) -> (r: Result<OsuBundle, ConvertError>) {
        self.compile(dir_is_empty)
    }
}

} // verus!
