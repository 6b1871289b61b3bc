//! A robot package as JavaScript sees it: held in memory, inspected, packed
//! link by link, and assembled into a spherical URDF.

use vstd::prelude::*;

use crate::assemble;
use crate::assemble::{
    MemSpheres, RewriteStats, Sphere, SphereSet, SphereSetView, SphereSource, SphereView,
};
use crate::inspect;
use crate::inspect::{InspectionReport, ReportView};
use crate::json;
use crate::kinematics;
use crate::kinematics::LinkChain;
use crate::pack;
use crate::text;
use crate::vfs;
use crate::vfs::MemPackage;
use crate::xml::NodeView;
use crate::{Error, ErrorView};

verus! {

/// The spheres that were recorded last for `link[index]`, among the first `n`.
pub open spec fn recorded_at(
    results: Seq<(String, usize, SphereSet)>,
    link: Seq<char>,
    index: int,
    n: int,
) -> Option<SphereSetView>
    decreases n,
{
    if n <= 0 || n > results.len() {
        None
    } else if results[n - 1].0@ == link && results[n - 1].1 == index {
        Some(results[n - 1].2@)
    } else {
        recorded_at(results, link, index, n - 1)
    }
}

proof fn lemma_recorded_prefix(
    a: Seq<(String, usize, SphereSet)>,
    b: Seq<(String, usize, SphereSet)>,
    link: Seq<char>,
    index: int,
    n: int,
)
    requires
        0 <= n <= a.len() <= b.len(),
        forall|k: int| 0 <= k < a.len() ==> a[k] == b[k],
    ensures
        recorded_at(a, link, index, n) == recorded_at(b, link, index, n),
    decreases n,
{
    if n > 0 {
        lemma_recorded_prefix(a, b, link, index, n - 1);
    }
}

/// The links and collision indices of the results, in turn.
pub open spec fn result_keys(results: Seq<(String, usize, SphereSet)>) -> Seq<(Seq<char>, int)> {
    results.map_values(|r: (String, usize, SphereSet)| (r.0@, r.1 as int))
}

/// Spheres are placed exactly where some are recorded.
proof fn lemma_placed_where_recorded(
    results: Seq<(String, usize, SphereSet)>,
    placed: Seq<Seq<SphereView>>,
    link: Seq<char>,
    index: int,
    n: int,
)
    requires
        0 <= n <= results.len(),
    ensures
        assemble::placed_at(result_keys(results), placed, link, index, n) is None <==> recorded_at(
            results,
            link,
            index,
            n,
        ) is None,
    decreases n,
{
    if n > 0 {
        lemma_placed_where_recorded(results, placed, link, index, n - 1);
    }
}

/// A robot description package (URDF plus meshes) held in memory, with the
/// spheres of the links that were packed.
pub struct JsRobotPackage {
    pub pkg: MemPackage,
    pub results: Vec<(String, usize, SphereSet)>,
}

impl JsRobotPackage {
    /// The spheres that are recorded for `link[index]`.
    pub open spec fn recorded(&self, link: Seq<char>, index: int) -> Option<SphereSetView> {
        recorded_at(self.results@, link, index, self.results@.len() as int)
    }

    /// The URDF that `urdf` picks.
    pub open spec fn picked(&self, urdf: Option<Seq<char>>) -> Result<Seq<char>, ErrorView> {
        inspect::selected(vfs::urdf_keys(self.pkg.file_keys()), urdf)
    }

    /// The report on the URDF that `urdf` picks.
    pub open spec fn reported(&self, urdf: Option<Seq<char>>) -> Result<ReportView, ErrorView> {
        match self.picked(urdf) {
            Ok(u) => inspect::inspected_in(self.pkg@, self.pkg.file_keys(), u),
            Err(e) => Err(e),
        }
    }

    /// An empty package; add files with [`JsRobotPackage::add_file`].
    pub fn new() -> (out: JsRobotPackage)
        ensures
            out.pkg@ == Map::<Seq<char>, Seq<u8>>::empty(),
            out.pkg.listed(),
            forall|link: Seq<char>, index: int| #[trigger] out.recorded(link, index) is None,
    {
        JsRobotPackage { pkg: MemPackage::new(), results: Vec::new() }
    }

    /// Add a file under its path relative to the package root; its key.
    pub fn add_file(&mut self, path: &str, bytes: &[u8]) -> (res: Result<String, Error>)
        ensures
            final(self).results == old(self).results,
            final(self).pkg.listed(),
            match res {
                Ok(key) => vfs::key_of(path@) == Some(key@) && vfs::with_file(
                    old(self).pkg@,
                    path@,
                    bytes@,
                ) == Ok::<Map<Seq<char>, Seq<u8>>, ErrorView>(final(self).pkg@),
                Err(e) => vfs::with_file(old(self).pkg@, path@, bytes@) == Err::<
                    Map<Seq<char>, Seq<u8>>,
                    ErrorView,
                >(e@) && final(self).pkg == old(self).pkg,
            },
    {
        let mut pkg = MemPackage::new();
        std::mem::swap(&mut pkg, &mut self.pkg);
        let res = pkg.insert(path, text::copy_bytes(bytes));
        self.pkg = pkg;
        res
    }

    /// A package from paths and bytes.
    pub fn from_files(files: Vec<(String, Vec<u8>)>) -> (res: Result<JsRobotPackage, Error>)
        ensures
            ({
                let given = files@.map_values(|f: (String, Vec<u8>)| (f.0@, f.1@));
                match res {
                    Ok(p) => vfs::with_files(given) == Ok::<Map<Seq<char>, Seq<u8>>, ErrorView>(
                        p.pkg@,
                    ) && p.pkg.listed() && p.results@.len() == 0,
                    Err(e) => vfs::with_files(given) == Err::<Map<Seq<char>, Seq<u8>>, ErrorView>(
                        e@,
                    ),
                }
            }),
    {
        match MemPackage::from_files(files) {
            Ok(pkg) => Ok(JsRobotPackage { pkg, results: Vec::new() }),
            Err(e) => Err(e),
        }
    }

    /// A package from a `.zip` archive.
    pub fn from_zip(bytes: &[u8]) -> (res: Result<JsRobotPackage, Error>)
        ensures
            match res {
                Ok(p) => vfs::unzipped(bytes@) == Ok::<Map<Seq<char>, Seq<u8>>, ErrorView>(p.pkg@)
                    && p.pkg.listed() && p.results@.len() == 0,
                Err(e) => vfs::unzipped(bytes@) == Err::<Map<Seq<char>, Seq<u8>>, ErrorView>(e@),
            },
    {
        match MemPackage::from_zip(bytes) {
            Ok(pkg) => Ok(JsRobotPackage { pkg, results: Vec::new() }),
            Err(e) => Err(e),
        }
    }

    /// Every file path, sorted.
    pub fn files(&self) -> (out: Vec<String>)
        ensures
            text::texts(out@) == self.pkg.file_keys(),
            text::ascending(self.pkg.file_keys()),
    {
        self.pkg.files()
    }

    /// Every `.urdf` in the package, sorted.
    pub fn urdfs(&self) -> (out: Vec<String>)
        ensures
            text::texts(out@) == vfs::urdf_keys(self.pkg.file_keys()),
    {
        self.pkg.urdfs()
    }

    /// The URDF to use: by base name when one is asked for, else the only one.
    pub fn select_urdf(&self, requested: Option<&str>) -> (res: Result<String, Error>)
        ensures
            match res {
                Ok(u) => self.picked(text::opt_str(requested)) == Ok::<Seq<char>, ErrorView>(u@),
                Err(e) => self.picked(text::opt_str(requested)) == Err::<Seq<char>, ErrorView>(e@),
            },
    {
        inspect::select_urdf_in(&self.pkg, requested)
    }

    /// Classify every collision of the URDF to use.
    pub fn inspect(&self, urdf: Option<&str>) -> (res: Result<InspectionReport, Error>)
        ensures
            match res {
                Ok(r) => self.reported(text::opt_str(urdf)) == Ok::<ReportView, ErrorView>(r@),
                Err(e) => self.reported(text::opt_str(urdf)) == Err::<ReportView, ErrorView>(e@),
            },
    {
        match self.select_urdf(urdf) {
            Ok(key) => inspect::inspect_urdf_in(&self.pkg, key.as_str()),
            Err(e) => Err(e),
        }
    }

    /// The joints from the root to every link of the URDF to use.
    pub fn link_poses(&self, urdf: Option<&str>) -> (res: Result<Vec<LinkChain>, Error>)
        ensures
            match self.picked(text::opt_str(urdf)) {
                Err(e) => res matches Err(x) && x@ == e,
                Ok(u) => {
                    let doc = kinematics::parsed_urdf(vfs::text_at(self.pkg@, u));
                    match res {
                        Ok(chains) => doc matches Ok(nodes) && kinematics::chain_views(chains@)
                            == kinematics::all_chains(
                            kinematics::joints_of(nodes),
                            kinematics::link_names(nodes),
                        ),
                        Err(e) => doc == Err::<Seq<NodeView>, ErrorView>(e@),
                    }
                },
            },
    {
        match self.select_urdf(urdf) {
            Ok(key) => kinematics::zero_config_link_poses(
                self.pkg.read_text(key.as_str()).as_str(),
            ),
            Err(e) => Err(e),
        }
    }

    /// Record the spheres of `link[index]` from a result JSON.
    pub fn set_link_result(&mut self, link: &str, index: usize, result_json: &str) -> (res: Result<
        (),
        Error,
    >)
        ensures
            final(self).pkg == old(self).pkg,
            ({
                let set = assemble::sphere_set(
                    json::json_rows(result_json@, "centers"@),
                    json::json_list(result_json@, "radii"@),
                    pack::result_name(link@, index as nat),
                );
                match res {
                    Ok(()) => {
                        &&& set is Ok
                        &&& final(self).recorded(link@, index as int) == Some(set->Ok_0)
                        &&& forall|l: Seq<char>, i: int|
                            l != link@ || i != index ==> #[trigger] final(self).recorded(l, i)
                                == old(self).recorded(l, i)
                    },
                    Err(e) => set == Err::<SphereSetView, ErrorView>(e@) && final(self).results
                        == old(self).results,
                }
            }),
    {
        let name = pack::json_filename(link, index);
        match assemble::load_spheres_str(result_json, name.as_str()) {
            Err(e) => Err(e),
            Ok(set) => {
                let ghost before = self.results@;
                self.results.push((String::from_str(link), index, set));
                assert forall|l: Seq<char>, i: int|
                    l != link@ || i != index implies #[trigger] self.recorded(l, i) == recorded_at(
                    before,
                    l,
                    i,
                    before.len() as int,
                ) by {
                    lemma_recorded_prefix(before, self.results@, l, i, before.len() as int);
                }
                Ok(())
            },
        }
    }

    /// The spheres that are recorded for `link[index]`.
    pub fn link_result(&self, link: &str, index: usize) -> (out: Option<&SphereSet>)
        ensures
            match out {
                Some(s) => self.recorded(link@, index as int) == Some(s@),
                None => self.recorded(link@, index as int) is None,
            },
    {
        let mut n: usize = self.results.len();
        while n > 0
            invariant
                n <= self.results@.len(),
                self.recorded(link@, index as int) == recorded_at(
                    self.results@,
                    link@,
                    index as int,
                    n as int,
                ),
            decreases n,
        {
            let e = &self.results[n - 1];
            if e.1 == index && text::same(e.0.as_str(), link) {
                return Some(&e.2);
            }
            n = n - 1;
        }
        None
    }

    /// Forget every recorded link result.
    pub fn clear_link_results(&mut self)
        ensures
            final(self).pkg == old(self).pkg,
            forall|link: Seq<char>, index: int| #[trigger] final(self).recorded(link, index) is None,
    {
        self.results = Vec::new();
    }

    /// The links and collision indices that spheres were recorded for, in turn.
    fn recorded_keys(&self) -> (out: Vec<(String, usize)>)
        ensures
            assemble::key_pairs(out@) == result_keys(self.results@),
    {
        let mut out: Vec<(String, usize)> = Vec::new();
        let mut i: usize = 0;
        while i < self.results.len()
            invariant
                i <= self.results@.len(),
                out@.len() == i,
                forall|j: int|
                    0 <= j < i ==> (#[trigger] out@[j]).0@ == self.results@[j].0@ && out@[j].1
                        == self.results@[j].1,
            decreases self.results@.len() - i,
        {
            out.push((self.results[i].0.clone(), self.results[i].1));
            i = i + 1;
        }
        assert(assemble::key_pairs(out@) =~= result_keys(self.results@));
        out
    }

    /// The spheres of the recorded links, where `placed` are the recorded spheres in
    /// the frames of their links, result by result.
    pub fn link_spheres(&self, placed: &[Vec<Sphere>]) -> (out: MemSpheres)
        requires
            placed@.len() == self.results@.len(),
        ensures
            assemble::source_view(&out) == assemble::placed_source(
                result_keys(self.results@),
                assemble::sphere_lists(placed@),
            ),
            forall|link: Seq<char>, index: int| #[trigger]
                out.found(link, index) == Ok::<Option<Seq<SphereView>>, ErrorView>(None)
                    <==> self.recorded(link, index) is None,
    {
        let keys = self.recorded_keys();
        assert(assemble::key_pairs(keys@).len() == keys@.len());
        let out = assemble::gather_spheres(&keys, placed);
        proof {
            let want = assemble::placed_source(
                result_keys(self.results@),
                assemble::sphere_lists(placed@),
            );
            assert forall|link: Seq<char>, index: int| #[trigger]
                out.found(link, index) == Ok::<Option<Seq<SphereView>>, ErrorView>(None)
                    <==> self.recorded(link, index) is None by {
                assert((assemble::source_view(&out).found)(link, index) == out.found(link, index));
                assert((want.found)(link, index) == out.found(link, index));
                lemma_placed_where_recorded(
                    self.results@,
                    assemble::sphere_lists(placed@),
                    link,
                    index,
                    self.results@.len() as int,
                );
            }
        }
        out
    }

    /// The URDF with every packed collision replaced by sphere links. `placed` are the
    /// recorded spheres in the frames of their links, result by result. `None` where
    /// collisions of the report overlap.
    pub fn assemble(
        &self,
        urdf: Option<&str>,
        placed: &[Vec<Sphere>],
        base_color: &str,
        link_colors: &[String],
    ) -> (out: Option<Result<(String, RewriteStats), Error>>)
        requires
            placed@.len() == self.results@.len(),
        ensures
            match self.reported(text::opt_str(urdf)) {
                Err(e) => out matches Some(Err(x)) && x@ == e,
                Ok(report) => assemble::rewrites(
                    out,
                    vfs::text_at(self.pkg@, report.urdf_path),
                    report,
                    assemble::placed_source(
                        result_keys(self.results@),
                        assemble::sphere_lists(placed@),
                    ),
                    base_color@,
                    text::texts(link_colors@),
                ),
            },
    {
        match self.inspect(urdf) {
            Err(e) => Some(Err(e)),
            Ok(report) => {
                let text = self.pkg.read_text(report.urdf_path.as_str());
                let source = self.link_spheres(placed);
                assemble::try_rewrite_urdf_text(
                    text.as_str(),
                    &report,
                    &source,
                    base_color,
                    link_colors,
                )
            },
        }
    }
}

/// The spheres of a collision are those that were recorded last for it.
pub proof fn the_last_record_counts(
    results: Seq<(String, usize, SphereSet)>,
    link: Seq<char>,
    index: int,
    k: int,
)
    requires
        -1 <= k < results.len(),
        forall|i: int|
            k < i < results.len() ==> (#[trigger] results[i]).0@ != link || results[i].1 != index,
    ensures
        k >= 0 && results[k].0@ == link && results[k].1 == index ==> recorded_at(
            results,
            link,
            index,
            results.len() as int,
        ) == Some(results[k].2@),
        k == -1 ==> recorded_at(results, link, index, results.len() as int) is None,
{
    lemma_recorded_at(results, link, index, k, results.len() as int);
}

proof fn lemma_recorded_at(
    results: Seq<(String, usize, SphereSet)>,
    link: Seq<char>,
    index: int,
    k: int,
    n: int,
)
    requires
        -1 <= k < n <= results.len() || k == -1 && n == 0,
        forall|i: int| k < i < n ==> (#[trigger] results[i]).0@ != link || results[i].1 != index,
    ensures
        recorded_at(results, link, index, n) == recorded_at(results, link, index, k + 1),
    decreases n,
{
    if n > k + 1 {
        assert(results[n - 1].0@ != link || results[n - 1].1 != index);
        lemma_recorded_at(results, link, index, k, n - 1);
    }
}

} // verus!
