//! The drivers of the configured providers.
use crate::host::openai::OpenAiCompatDriver;
use crate::text;
use vstd::prelude::*;

verus! {

broadcast use crate::text::views_push;

/// A provider in the configuration. `api_key` is what the variable that names
/// its key holds.
pub struct ProviderConfig {
    pub name: String,
    pub driver: String,
    pub base_url: Option<String>,
    pub api_key: Option<String>,
}

pub struct ConfigV {
    pub name: Seq<char>,
    pub driver: Seq<char>,
    pub base_url: Option<Seq<char>>,
    pub api_key: Option<Seq<char>>,
}

impl View for ProviderConfig {
    type V = ConfigV;

    open spec fn view(&self) -> ConfigV {
        ConfigV {
            name: self.name@,
            driver: self.driver@,
            base_url: text::opt_text(self.base_url),
            api_key: text::opt_text(self.api_key),
        }
    }
}

pub open spec fn configs(v: Seq<ProviderConfig>) -> Seq<ConfigV> {
    v.map_values(|c: ProviderConfig| c@)
}

pub enum Driver {
    Echo,
    OpenAi(OpenAiCompatDriver),
}

pub enum DriverV {
    Echo,
    OpenAi { base_url: Seq<char>, api_key: Seq<char> },
}

impl View for Driver {
    type V = DriverV;

    open spec fn view(&self) -> DriverV {
        match self {
            Driver::Echo => DriverV::Echo,
            Driver::OpenAi(d) => DriverV::OpenAi { base_url: d.base_url@, api_key: d.api_key@ },
        }
    }
}

pub open spec fn named(v: Seq<(String, Driver)>) -> Seq<(Seq<char>, DriverV)> {
    v.map_values(|p: (String, Driver)| (p.0@, p.1@))
}

/// The driver of a provider, or why there is none.
pub open spec fn driver_of(c: ConfigV) -> Result<DriverV, Seq<char>> {
    if c.driver == "echo"@ {
        Ok(DriverV::Echo)
    } else if c.driver == "openai_compat"@ {
        match c.base_url {
            Some(base_url) => Ok(
                DriverV::OpenAi {
                    base_url,
                    api_key: match c.api_key {
                        Some(k) => k,
                        None => Seq::empty(),
                    },
                },
            ),
            None => Err("openai_compat provider requires base_url"@),
        }
    } else {
        Err("provider "@ + c.name + ": unknown driver "@ + c.driver)
    }
}

/// The drivers of all providers, or the first fault.
pub open spec fn drivers_of(v: Seq<ConfigV>) -> Result<Seq<(Seq<char>, DriverV)>, Seq<char>>
    decreases v.len(),
{
    if v.len() == 0 {
        Ok(seq![])
    } else {
        match drivers_of(v.drop_last()) {
            Ok(done) => match driver_of(v.last()) {
                Ok(d) => Ok(done.push((v.last().name, d))),
                Err(e) => Err(e),
            },
            Err(e) => Err(e),
        }
    }
}

pub fn build_driver(c: &ProviderConfig) -> (r: Result<Driver, String>)
    ensures
        (match r {
            Ok(d) => Ok::<DriverV, Seq<char>>(d@),
            Err(e) => Err::<DriverV, Seq<char>>(e@),
        }) == driver_of(c@),
{
    if text::same(c.driver.as_str(), "echo") {
        Ok(Driver::Echo)
    } else if text::same(c.driver.as_str(), "openai_compat") {
        match &c.base_url {
            Some(url) => {
                let key = match &c.api_key {
                    Some(k) => k.clone(),
                    None => {
                        let e = String::new();
                        assert(e@ =~= Seq::<char>::empty());
                        e
                    },
                };
                Ok(Driver::OpenAi(OpenAiCompatDriver { base_url: url.clone(), api_key: key }))
            },
            None => Err(text::owned("openai_compat provider requires base_url")),
        }
    } else {
        Err(
            text::owned("provider ").concat(c.name.as_str()).concat(": unknown driver ").concat(
                c.driver.as_str(),
            ),
        )
    }
}

proof fn lemma_faults_stay(v: Seq<ConfigV>, k: int)
    requires
        0 <= k <= v.len(),
        drivers_of(v.take(k)) is Err,
    ensures
        drivers_of(v) == drivers_of(v.take(k)),
    decreases v.len() - k,
{
    if k < v.len() {
        assert(v.take(k + 1).drop_last() =~= v.take(k));
        lemma_faults_stay(v, k + 1);
    } else {
        assert(v.take(k) =~= v);
    }
}

/// Builds the drivers of all providers.
pub fn build_drivers(v: &Vec<ProviderConfig>) -> (r: Result<Vec<(String, Driver)>, String>)
    ensures
        (match r {
            Ok(d) => Ok::<Seq<(Seq<char>, DriverV)>, Seq<char>>(named(d@)),
            Err(e) => Err::<Seq<(Seq<char>, DriverV)>, Seq<char>>(e@),
        }) == drivers_of(configs(v@)),
{
    let ghost all = configs(v@);
    let mut out: Vec<(String, Driver)> = Vec::new();
    let mut i: usize = 0;
    assert(all.take(0) =~= seq![]);
    assert(named(out@) =~= seq![]);
    while i < v.len()
        invariant
            i <= v@.len(),
            all == configs(v@),
            drivers_of(all.take(i as int)) == Ok::<Seq<(Seq<char>, DriverV)>, Seq<char>>(
                named(out@),
            ),
        decreases v@.len() - i,
    {
        assert(all.take(i as int + 1).drop_last() =~= all.take(i as int));
        assert(all.take(i as int + 1).last() == v@[i as int]@);
        match build_driver(&v[i]) {
            Ok(d) => {
                let ghost had = named(out@);
                let name = v[i].name.clone();
                out.push((name, d));
                assert(named(out@) =~= had.push((name@, d@)));
            },
            Err(e) => {
                proof {
                    lemma_faults_stay(all, i as int + 1);
                }
                return Err(e);
            },
        }
        i = i + 1;
    }
    assert(all.take(i as int) =~= all);
    Ok(out)
}

/// The provider of requests that name none: the configured one, or else the first.
pub fn default_provider(configured: &Option<String>, v: &Vec<ProviderConfig>) -> (r: String)
    ensures
        r@ == match text::opt_text(*configured) {
            Some(p) => p,
            None => if v@.len() > 0 {
                v@[0]@.name
            } else {
                Seq::empty()
            },
        },
{
    if let Some(p) = configured {
        return p.clone();
    }
    if v.len() > 0 {
        v[0].name.clone()
    } else {
        let e = String::new();
        assert(e@ =~= Seq::<char>::empty());
        e
    }
}

} // verus!
