//! The x86-64 registers the allocator hands out at this level.
use vstd::prelude::*;

verus! {

#[derive(PartialEq, Eq, PartialOrd, Ord, Hash, Structural, Debug, Copy, Clone)]
pub enum Amd64Register {
    Eax,
    Ebx,
    Ecx,
    Edx,
    Esp,
    Rax,
    Rcx,
    Rsp,
}

impl Amd64Register {
    /// The register's assembly name.
    pub fn name(&self) -> (r: &'static str)
        ensures
            self matches Amd64Register::Eax ==> r@ == "eax"@,
            self matches Amd64Register::Rax ==> r@ == "rax"@,
    {
        match self {
            Amd64Register::Eax => "eax",
            Amd64Register::Ebx => "ebx",
            Amd64Register::Ecx => "ecx",
            Amd64Register::Edx => "edx",
            Amd64Register::Esp => "esp",
            Amd64Register::Rax => "rax",
            Amd64Register::Rcx => "rcx",
            Amd64Register::Rsp => "rsp",
        }
    }

    /// The register's width in bytes.
    pub open spec fn spec_reg_size(self) -> usize {
        match self {
            Amd64Register::Eax
            | Amd64Register::Ebx
            | Amd64Register::Ecx
            | Amd64Register::Edx
            | Amd64Register::Esp => 4,
            Amd64Register::Rax | Amd64Register::Rcx | Amd64Register::Rsp => 8,
        }
    }

    pub fn reg_size(&self) -> (r: usize)
        ensures
            r == self.spec_reg_size(),
    {
        match self {
            Amd64Register::Eax
            | Amd64Register::Ebx
            | Amd64Register::Ecx
            | Amd64Register::Edx
            | Amd64Register::Esp => 4,
            Amd64Register::Rax | Amd64Register::Rcx | Amd64Register::Rsp => 8,
        }
    }
}

} // verus!
