use vstd::prelude::*;

use crate::hir::{Package, PackageId};

verus! {

/// The packages of a compilation, and the next package id to hand out.
pub struct TyCtx {
    pub packages: Vec<Package>,
    pub next_package_id: usize,
}

impl TyCtx {
    /// Adds `package`, giving back its id.
    pub fn register_package(&mut self, package: Package) -> (r: PackageId)
        ensures
            r == package.id,
            final(self).packages@ == old(self).packages@.push(package),
            final(self).next_package_id == old(self).next_package_id,
    {
        let id = package.id;
        self.packages.push(package);
        id
    }

    /// The package at index `id`.
    pub fn package(&self, id: PackageId) -> (r: &Package)
        requires
            id.0 < self.packages@.len(),
        ensures
            *r == self.packages@[id.0 as int],
    {
        &self.packages[id.get()]
    }

    /// A fresh package id: the next one, which is then moved on by one.
    pub fn mint_package_id(&mut self) -> (r: PackageId)
        requires
            old(self).next_package_id < usize::MAX,
        ensures
            r.0 == old(self).next_package_id,
            final(self).next_package_id == old(self).next_package_id + 1,
            final(self).packages@ == old(self).packages@,
    {
        self.next_package_id += 1;
        PackageId::new(self.next_package_id - 1)
    }
}

} // verus!
