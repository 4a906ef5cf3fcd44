//! The persisted data model: crawl limits, user settings and lens
//! definitions, together with their mathematical views.

use vstd::prelude::*;

verus! {

/// Per-domain crawl-depth bound: unbounded, or a finite page count.
/// Sub-domains are treated as separate domains by the consuming crawler.
#[derive(Clone, Copy, Debug, PartialEq, Eq)]
pub enum Limit {
    Infinite,
    Finite(u32),
}

impl Default for Limit {
    /// The default crawl bound is one hundred pages per domain.
    fn default() -> (r: Self)
        ensures
            r == Limit::Finite(100u32),
    {
        Limit::Finite(100)
    }
}

/// The persisted preference record.
#[derive(Clone, Debug, PartialEq, Eq)]
pub struct UserSettings {
    /// Number of pages allowed per domain.
    pub domain_crawl_limit: Limit,
    /// Should the setup wizard run?
    pub run_wizard: bool,
    /// Domains explicitly allowed, regardless of the block list.
    pub allow_list: Vec<String>,
    /// Domains explicitly blocked from crawling.
    pub block_list: Vec<String>,
}

/// Mathematical view of a [`UserSettings`] record.
pub struct SettingsModel {
    pub domain_crawl_limit: Limit,
    pub run_wizard: bool,
    pub allow_list: Seq<Seq<char>>,
    pub block_list: Seq<Seq<char>>,
}

impl View for UserSettings {
    type V = SettingsModel;

    open spec fn view(&self) -> SettingsModel {
        SettingsModel {
            domain_crawl_limit: self.domain_crawl_limit,
            run_wizard: self.run_wizard,
            allow_list: self.allow_list.deep_view(),
            block_list: self.block_list.deep_view(),
        }
    }
}

/// The record a fresh installation starts from: a finite crawl limit of one
/// hundred pages, no wizard, and empty allow and block lists.
pub open spec fn default_model() -> SettingsModel {
    SettingsModel {
        domain_crawl_limit: Limit::Finite(100u32),
        run_wizard: false,
        allow_list: Seq::empty(),
        block_list: Seq::empty(),
    }
}

impl Default for UserSettings {
    /// Every field takes its defined default, so a fresh record is always
    /// constructible without input.
    fn default() -> (r: Self)
        ensures
            r@ == default_model(),
    {
        let r = UserSettings {
            domain_crawl_limit: Limit::Finite(100),
            run_wizard: false,
            allow_list: Vec::new(),
            block_list: Vec::new(),
        };
        proof {
            assert(r.allow_list.deep_view() =~= Seq::<Seq<char>>::empty());
            assert(r.block_list.deep_view() =~= Seq::<Seq<char>>::empty());
        }
        r
    }
}

/// A named search-scope definition: a set of domains and URLs that restricts
/// a search space. Values are opaque strings; no syntax is validated here.
#[derive(Clone, Debug, PartialEq, Eq)]
pub struct Lense {
    /// Unique key in the registry.
    pub name: String,
    pub domains: Vec<String>,
    pub urls: Vec<String>,
}

/// Mathematical view of a [`Lense`].
pub struct LenseModel {
    pub name: Seq<char>,
    pub domains: Seq<Seq<char>>,
    pub urls: Seq<Seq<char>>,
}

impl View for Lense {
    type V = LenseModel;

    open spec fn view(&self) -> LenseModel {
        LenseModel {
            name: self.name@,
            domains: self.domains.deep_view(),
            urls: self.urls.deep_view(),
        }
    }
}

} // verus!
