//! CTAN mirrors: the built-in list, selection by name or by measured
//! speed, and the download locations a selected mirror yields.
use vstd::prelude::*;
use vstd::string::StringExecFns;

use crate::error::TpmgrError;
use crate::text::str_eq;

verus! {

/// One CTAN mirror.
#[derive(Debug, Clone)]
pub struct Mirror {
    pub name: String,
    pub url: String,
    pub country: String,
    pub location: String,
    pub continent: String,
    pub sponsor: String,
    pub http: bool,
    pub https: bool,
    pub rsync: bool,
    pub ftp: bool,
}

/// Mathematical model of a mirror entry.
pub struct MirrorModel {
    pub name: Seq<char>,
    pub url: Seq<char>,
    pub country: Seq<char>,
    pub location: Seq<char>,
    pub continent: Seq<char>,
    pub sponsor: Seq<char>,
    pub http: bool,
    pub https: bool,
    pub rsync: bool,
    pub ftp: bool,
}

impl View for Mirror {
    type V = MirrorModel;

    open spec fn view(&self) -> MirrorModel {
        MirrorModel {
            name: self.name@,
            url: self.url@,
            country: self.country@,
            location: self.location@,
            continent: self.continent@,
            sponsor: self.sponsor@,
            http: self.http,
            https: self.https,
            rsync: self.rsync,
            ftp: self.ftp,
        }
    }
}

/// The models of a list of mirrors.
pub open spec fn mirror_models(v: Seq<Mirror>) -> Seq<MirrorModel> {
    v.map_values(|m: Mirror| m@)
}

/// A stored mirror list with its update stamp.
#[derive(Debug)]
pub struct MirrorList {
    pub mirrors: Vec<Mirror>,
    pub last_updated: String,
}

impl Mirror {
    /// A copy of this mirror entry.
    pub fn duplicate(&self) -> (r: Mirror)
        ensures
            r@ == self@,
    {
        Mirror {
            name: self.name.clone(),
            url: self.url.clone(),
            country: self.country.clone(),
            location: self.location.clone(),
            continent: self.continent.clone(),
            sponsor: self.sponsor.clone(),
            http: self.http,
            https: self.https,
            rsync: self.rsync,
            ftp: self.ftp,
        }
    }
}

fn builtin_mirror(
    name: &str,
    url: &str,
    country: &str,
    location: &str,
    continent: &str,
    sponsor: &str,
    https: bool,
) -> (r: Mirror)
    ensures
        r@.name == name@,
        r@.url == url@,
        r@.country == country@,
        r@.location == location@,
        r@.continent == continent@,
        r@.sponsor == sponsor@,
        r@.http == true,
        r@.https == https,
        r@.rsync == false,
        r@.ftp == false,
{
    Mirror {
        name: crate::text::str_copy(name),
        url: crate::text::str_copy(url),
        country: crate::text::str_copy(country),
        location: crate::text::str_copy(location),
        continent: crate::text::str_copy(continent),
        sponsor: crate::text::str_copy(sponsor),
        http: true,
        https,
        rsync: false,
        ftp: false,
    }
}

/// The fallback mirror used when nothing responds.
pub open spec fn default_mirror_model() -> MirrorModel {
    MirrorModel {
        name: "CTAN"@,
        url: "https://mirror.ctan.org"@,
        country: "Global"@,
        location: "Global"@,
        continent: "Global"@,
        sponsor: "CTAN"@,
        http: true,
        https: true,
        rsync: false,
        ftp: false,
    }
}

/// Mirror `i` answered in `t` milliseconds, under the ten-second bound,
/// faster than every earlier mirror and at least as fast as every later
/// one among the first `lim`.
pub open spec fn best_choice(lat: Seq<Option<u64>>, lim: int, i: int, t: u64) -> bool {
    &&& 0 <= i < lim && i < lat.len()
    &&& lat[i] == Some(t)
    &&& t < 10000
    &&& (forall|j: int|
        0 <= j < i && j < lat.len() ==> (match #[trigger] lat[j] {
            Some(t2) => t2 > t,
            None => true,
        }))
    &&& (forall|j: int|
        i < j < lim && j < lat.len() ==> (match #[trigger] lat[j] {
            Some(t2) => t2 >= t,
            None => true,
        }))
}

/// Some of the first `lim` mirrors answered under the bound.
pub open spec fn any_answered(lat: Seq<Option<u64>>, lim: int) -> bool {
    exists|i: int|
        0 <= i < lim && i < lat.len() && (match #[trigger] lat[i] {
            Some(t) => t < 10000,
            None => false,
        })
}

/// How many mirrors take part in speed probing: the first ten.
pub open spec fn mirror_limit(mirrors: Seq<Mirror>) -> int {
    if mirrors.len() < 10 {
        mirrors.len() as int
    } else {
        10
    }
}

/// The mirror `m` is a correct selection for the measured latencies: the
/// fastest qualifying mirror, or the fallback when none qualifies.
pub open spec fn selection_ok(mirrors: Seq<Mirror>, lat: Seq<Option<u64>>, m: MirrorModel) -> bool {
    if any_answered(lat, mirror_limit(mirrors)) {
        exists|i: int, t: u64|
            #[trigger] best_choice(lat, mirror_limit(mirrors), i, t) && m == mirror_models(
                mirrors,
            )[i]
    } else {
        m == default_mirror_model()
    }
}

/// Keeps the known mirrors and which one is selected. Network probing
/// happens outside; selection decisions live here.
pub struct MirrorManager {
    pub mirrors: Vec<Mirror>,
    pub selected_mirror: Option<Mirror>,
}

impl MirrorManager {
    /// A manager with no mirrors loaded and none selected.
    pub fn new() -> (r: MirrorManager)
        ensures
            r.mirrors@.len() == 0,
            r.selected_mirror is None,
    {
        MirrorManager { mirrors: Vec::new(), selected_mirror: None }
    }

    /// Load the built-in mirror list.
    pub fn fetch_mirrors(&mut self) -> (r: Result<(), TpmgrError>)
        ensures
            r is Ok,
            final(self).selected_mirror == old(self).selected_mirror,
            mirror_models(final(self).mirrors@).len() == 4,
            mirror_models(final(self).mirrors@)[0].name == "CTAN Main"@,
            mirror_models(final(self).mirrors@)[0].url == "https://mirrors.ctan.org"@,
            mirror_models(final(self).mirrors@)[1].name == "USTC Mirror"@,
            mirror_models(final(self).mirrors@)[1].url == "https://mirrors.ustc.edu.cn/CTAN"@,
            mirror_models(final(self).mirrors@)[2].name == "Tsinghua Mirror"@,
            mirror_models(final(self).mirrors@)[2].url
                == "https://mirrors.tuna.tsinghua.edu.cn/CTAN"@,
            mirror_models(final(self).mirrors@)[3].name == "MIT Mirror"@,
            mirror_models(final(self).mirrors@)[3].url == "http://mirrors.mit.edu/CTAN"@,
    {
        let mut v: Vec<Mirror> = Vec::new();
        v.push(
            builtin_mirror(
                "CTAN Main",
                "https://mirrors.ctan.org",
                "Global",
                "Global",
                "Global",
                "CTAN",
                true,
            ),
        );
        v.push(
            builtin_mirror(
                "USTC Mirror",
                "https://mirrors.ustc.edu.cn/CTAN",
                "China",
                "Hefei",
                "Asia",
                "USTC",
                true,
            ),
        );
        v.push(
            builtin_mirror(
                "Tsinghua Mirror",
                "https://mirrors.tuna.tsinghua.edu.cn/CTAN",
                "China",
                "Beijing",
                "Asia",
                "Tsinghua University",
                true,
            ),
        );
        v.push(
            builtin_mirror(
                "MIT Mirror",
                "http://mirrors.mit.edu/CTAN",
                "USA",
                "Cambridge",
                "North America",
                "MIT",
                false,
            ),
        );
        self.mirrors = v;
        Ok(())
    }

    /// Select the mirror that answered fastest: `latencies[i]` is the
    /// measured answer time in milliseconds of mirror `i`, nothing for one
    /// that failed; only answers under ten seconds count, ties go to the
    /// earlier mirror, and at most the first ten mirrors take part. When
    /// none qualifies, the fallback mirror is selected.
    #[verifier::rlimit(50)]
    pub fn select_best_mirror(&mut self, latencies: &Vec<Option<u64>>) -> (r: Result<
        (),
        TpmgrError,
    >)
        ensures
            r is Ok,
            final(self).mirrors == old(self).mirrors,
            final(self).selected_mirror is Some,
            final(self).selected_mirror matches Some(m) ==> selection_ok(
                old(self).mirrors@,
                latencies@,
                m@,
            ),
    {
        let ghost ms = mirror_models(self.mirrors@);
        let ghost lat = latencies@;
        let n: usize = self.mirrors.len();
        let lim: usize = if n < 10 {
            n
        } else {
            10
        };
        let mut best: Option<usize> = None;
        let mut best_time: u64 = 10000;
        let mut i: usize = 0;
        while i < lim
            invariant
                i <= lim,
                n == self.mirrors@.len(),
                lim == (if n < 10 {
                    n
                } else {
                    10
                }),
                ms == mirror_models(self.mirrors@),
                lat == latencies@,
                self.mirrors == old(self).mirrors,
                self.selected_mirror == old(self).selected_mirror,
                best_time <= 10000,
                match best {
                    Some(b) => {
                        &&& b < i
                        &&& b < lat.len()
                        &&& lat[b as int] == Some(best_time)
                        &&& best_time < 10000
                        &&& (forall|j: int|
                            0 <= j < b && j < lat.len() ==> (match #[trigger] lat[j] {
                                Some(t2) => t2 > best_time,
                                None => true,
                            }))
                        &&& (forall|j: int|
                            b < j < i && j < lat.len() ==> (match #[trigger] lat[j] {
                                Some(t2) => t2 >= best_time,
                                None => true,
                            }))
                    },
                    None => {
                        &&& best_time == 10000
                        &&& (forall|j: int|
                            0 <= j < i && j < lat.len() ==> (match #[trigger] lat[j] {
                                Some(t2) => t2 >= 10000,
                                None => true,
                            }))
                    },
                },
            decreases lim - i,
        {
            if i < latencies.len() {
                match latencies[i] {
                    Some(t) => {
                        if t < best_time {
                            best = Some(i);
                            best_time = t;
                        }
                    },
                    None => {},
                }
            }
            i += 1;
        }
        proof {
            assert(ms.len() == n as int);
            assert(ms == mirror_models(old(self).mirrors@));
            assert(lim as int == (if ms.len() < 10 {
                ms.len() as int
            } else {
                10int
            }));
        }
        match best {
            Some(b) => {
                let chosen = self.mirrors[b].duplicate();
                proof {
                    assert(chosen@ == mirror_models(old(self).mirrors@)[b as int]);
                    let lim2 = mirror_limit(old(self).mirrors@);
                    assert(lim as int == lim2);
                    assert(best_choice(lat, lim2, b as int, best_time));
                    assert(any_answered(lat, lim2)) by {
                        assert(0 <= b < lim2 && (b as int) < lat.len());
                        assert(match lat[b as int] {
                            Some(t) => t < 10000,
                            None => false,
                        });
                    }
                    assert(selection_ok(old(self).mirrors@, lat, chosen@));
                }
                self.selected_mirror = Some(chosen);
            },
            None => {
                proof {
                    assert(lim as int == mirror_limit(old(self).mirrors@));
                    if any_answered(lat, lim as int) {
                        let w = choose|w: int|
                            0 <= w < lim as int && w < lat.len() && (match #[trigger] lat[w] {
                                Some(t) => t < 10000,
                                None => false,
                            });
                        assert(false);
                    }
                }
                let fallback = builtin_mirror(
                    "CTAN",
                    "https://mirror.ctan.org",
                    "Global",
                    "Global",
                    "Global",
                    "CTAN",
                    true,
                );
                proof {
                    assert(fallback@ =~= default_mirror_model());
                    assert(selection_ok(old(self).mirrors@, lat, fallback@));
                }
                self.selected_mirror = Some(fallback);
            },
        }
        Ok(())
    }

    /// Select the first mirror of this name; an unknown name is rejected
    /// and changes nothing.
    pub fn select_mirror_by_name(&mut self, name: &str) -> (r: Result<(), TpmgrError>)
        ensures
            final(self).mirrors == old(self).mirrors,
            ({
                let ms = mirror_models(old(self).mirrors@);
                if exists|i: int| 0 <= i < ms.len() && (#[trigger] ms[i]).name == name@ {
                    r is Ok && (final(self).selected_mirror matches Some(m) && exists|i: int|
                        0 <= i < ms.len() && (#[trigger] ms[i]).name == name@ && m@ == ms[i] && (
                        forall|j: int| 0 <= j < i ==> (#[trigger] ms[j]).name != name@))
                } else {
                    r is Err && final(self).selected_mirror == old(self).selected_mirror
                }
            }),
    {
        let n: usize = self.mirrors.len();
        let mut i: usize = 0;
        while i < n
            invariant
                i <= n,
                n == self.mirrors@.len(),
                self.mirrors == old(self).mirrors,
                self.selected_mirror == old(self).selected_mirror,
                forall|k: int|
                    0 <= k < i ==> (#[trigger] mirror_models(self.mirrors@)[k]).name != name@,
            decreases n - i,
        {
            if str_eq(self.mirrors[i].name.as_str(), name) {
                let chosen = self.mirrors[i].duplicate();
                proof {
                    assert(mirror_models(self.mirrors@)[i as int].name == name@);
                    assert(chosen@ == mirror_models(self.mirrors@)[i as int]);
                }
                self.selected_mirror = Some(chosen);
                return Ok(());
            }
            proof {
                assert(mirror_models(self.mirrors@)[i as int].name == self.mirrors@[i as int].name@);
            }
            i += 1;
        }
        Err(
            TpmgrError::PackageNotFound { name: crate::text::str_copy(name) },
        )
    }

    /// The selected mirror, if any.
    pub fn get_selected_mirror(&self) -> (r: Option<&Mirror>)
        ensures
            match r {
                Some(m) => self.selected_mirror matches Some(s) && s == *m,
                None => self.selected_mirror is None,
            },
    {
        self.selected_mirror.as_ref()
    }

    /// Where the selected mirror serves one package archive.
    pub fn get_package_url(&self, package_name: &str) -> (r: Option<String>)
        ensures
            match r {
                Some(u) => self.selected_mirror matches Some(m) && u@ == m@.url
                    + "/systems/texlive/tlnet/archive/"@ + package_name@ + ".tar.xz"@,
                None => self.selected_mirror is None,
            },
    {
        match &self.selected_mirror {
            Some(m) => Some(
                m.url.clone().concat("/systems/texlive/tlnet/archive/").concat(
                    package_name,
                ).concat(".tar.xz"),
            ),
            None => None,
        }
    }

    /// Where the selected mirror serves the package index.
    pub fn get_package_index_url(&self) -> (r: Option<String>)
        ensures
            match r {
                Some(u) => self.selected_mirror matches Some(m) && u@ == m@.url
                    + "/systems/texlive/tlnet/tlpkg/texlive.tlpdb"@,
                None => self.selected_mirror is None,
            },
    {
        match &self.selected_mirror {
            Some(m) => Some(m.url.clone().concat("/systems/texlive/tlnet/tlpkg/texlive.tlpdb")),
            None => None,
        }
    }
}

} // verus!
