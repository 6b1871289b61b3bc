//! What the 3D view shows of the open document: its meshes, each with a group
//! of spheres.

use vstd::prelude::*;

use crate::inspect;
use crate::inspect::{CollisionItem, ItemView};
use crate::studio::state;
use crate::studio::state::{GroupStep, Mode, Studio};
use crate::text;

verus! {

/// A mesh that the scene shows, with the group of its spheres.
#[derive(Debug)]
pub struct Part {
    /// The collision of the robot; none for the object.
    pub collision: Option<usize>,
    /// The group's key.
    pub key: Option<(String, usize)>,
    /// The step of the spheres' hue and the number of steps; the base color
    /// without one.
    pub hue: Option<(usize, usize)>,
}

/// Whether one of the items is `link[index]`.
pub open spec fn has_item(items: Seq<ItemView>, link: Seq<char>, index: int) -> bool {
    exists|k: int|
        0 <= k < items.len() && (#[trigger] items[k]).link_name == link && items[k].collision_index
            == index
}

/// The collisions among the first `n` whose meshes are loaded.
pub open spec fn shown(loaded: Seq<bool>, n: int) -> Seq<int>
    decreases n,
{
    if n <= 0 {
        Seq::empty()
    } else if n <= loaded.len() && loaded[n - 1] {
        shown(loaded, n - 1).push(n - 1)
    } else {
        shown(loaded, n - 1)
    }
}

/// Whether `hue` is the step of the spheres of `link[index]`: the place of its
/// link among the links of the packed items, if it is one of them.
pub open spec fn is_hue(
    hue: Option<(usize, usize)>,
    packed: Seq<ItemView>,
    link: Seq<char>,
    index: int,
) -> bool {
    let links = state::distinct_links(packed, packed.len() as int);
    match hue {
        Some((step, steps)) => {
            &&& has_item(packed, link, index)
            &&& steps == links.len()
            &&& step < links.len()
            &&& links[step as int] == link
        },
        None => !has_item(packed, link, index),
    }
}

/// Whether `part` shows the collision `i` of `items`.
pub open spec fn shows(part: Part, items: Seq<ItemView>, i: int) -> bool {
    let c = items[i];
    &&& part.collision == Some(i as usize)
    &&& state::key_view(part.key) == Some((c.link_name, c.collision_index))
    &&& is_hue(part.hue, inspect::packed_items(items), c.link_name, c.collision_index)
}

/// Whether `part` shows the object.
pub open spec fn shows_object(part: Part) -> bool {
    part.collision is None && part.key is None && part.hue is None
}

/// The hue of `link[index]` among the steps of the packed items.
fn find_hue(steps: &[GroupStep], packed: &[CollisionItem], link: &str, index: usize) -> (out: Option<
    (usize, usize),
>)
    requires
        steps@.len() == packed@.len(),
        forall|i: int|
            0 <= i < packed@.len() ==> state::is_step(
                #[trigger] steps@[i],
                packed@[i]@,
                state::distinct_links(inspect::item_views(packed@), packed@.len() as int),
            ),
    ensures
        is_hue(out, inspect::item_views(packed@), link@, index as int),
{
    let ghost v = inspect::item_views(packed@);
    let mut i: usize = 0;
    while i < packed.len()
        invariant
            i <= packed@.len(),
            v == inspect::item_views(packed@),
            steps@.len() == packed@.len(),
            forall|j: int|
                0 <= j < packed@.len() ==> state::is_step(
                    #[trigger] steps@[j],
                    packed@[j]@,
                    state::distinct_links(v, packed@.len() as int),
                ),
            forall|j: int|
                0 <= j < i ==> (#[trigger] v[j]).link_name != link@ || v[j].collision_index != index,
        decreases packed@.len() - i,
    {
        assert(v[i as int] == packed@[i as int]@);
        if packed[i].collision_index == index && text::same(packed[i].link_name.as_str(), link) {
            assert(state::is_step(steps@[i as int], packed@[i as int]@, state::distinct_links(v, packed@.len() as int)));
            return Some((steps[i].step, steps[i].steps));
        }
        i = i + 1;
    }
    None
}

/// The parts of a robot's scene.
fn robot_parts(items: &[CollisionItem], packed: &[CollisionItem], loaded: &[bool]) -> (out: Vec<Part>)
    requires
        inspect::item_views(packed@) == inspect::packed_items(inspect::item_views(items@)),
    ensures
        out@.len() == shown(loaded@, items@.len() as int).len(),
        forall|k: int|
            0 <= k < out@.len() ==> shows(
                #[trigger] out@[k],
                inspect::item_views(items@),
                shown(loaded@, items@.len() as int)[k],
            ),
{
    let ghost v = inspect::item_views(items@);
    let steps = state::group_steps(packed);
    let mut out: Vec<Part> = Vec::new();
    let mut i: usize = 0;
    while i < items.len()
        invariant
            i <= items@.len(),
            v == inspect::item_views(items@),
            inspect::item_views(packed@) == inspect::packed_items(v),
            steps@.len() == packed@.len(),
            forall|j: int|
                0 <= j < packed@.len() ==> state::is_step(
                    #[trigger] steps@[j],
                    packed@[j]@,
                    state::distinct_links(inspect::item_views(packed@), packed@.len() as int),
                ),
            out@.len() == shown(loaded@, i as int).len(),
            forall|k: int|
                0 <= k < out@.len() ==> shows(#[trigger] out@[k], v, shown(loaded@, i as int)[k]),
        decreases items@.len() - i,
    {
        assert(v[i as int] == items@[i as int]@);
        if i < loaded.len() && loaded[i] {
            let c = &items[i];
            let hue = find_hue(&steps, packed, c.link_name.as_str(), c.collision_index);
            out.push(
                Part { collision: Some(i), key: Some((c.link_name.clone(), c.collision_index)), hue },
            );
        }
        i = i + 1;
    }
    out
}

impl<R, Q> Studio<R, Q> {
    /// Whether `parts` are what the scene of the open document shows.
    pub open spec fn scene_is(self, parts: Seq<Part>) -> bool {
        match self.mode {
            Mode::Object => match self.object {
                Some(_) => parts.len() == 1 && shows_object(parts[0]),
                None => parts.len() == 0,
            },
            Mode::Robot => match self.robot {
                Some(r) => {
                    let items = r.report@.collisions;
                    let at = shown(r.loaded@, items.len() as int);
                    &&& parts.len() == at.len()
                    &&& forall|k: int| 0 <= k < parts.len() ==> shows(#[trigger] parts[k], items, at[k])
                },
                None => parts.len() == 0,
            },
        }
    }

    /// Rebuild the scene, if it has changed: what it shows now.
    pub fn rebuild(&mut self) -> (parts: Option<Vec<Part>>)
        ensures
            match parts {
                None => !old(self).scene_dirty && *final(self) == *old(self),
                Some(p) => {
                    &&& old(self).scene_dirty
                    &&& old(self).scene_is(p@)
                    &&& *final(self) == (Studio {
                        scene_dirty: false,
                        spheres_dirty: true,
                        ..*old(self)
                    })
                },
            },
    {
        if !self.scene_dirty {
            return None;
        }
        self.scene_dirty = false;
        self.spheres_dirty = true;
        let mut parts: Vec<Part> = Vec::new();
        match self.mode {
            Mode::Object => {
                if self.object.is_some() {
                    parts.push(Part { collision: None, key: None, hue: None });
                }
            },
            Mode::Robot => {
                match &self.robot {
                    Some(r) => {
                        let packed = r.report.to_pack();
                        parts = robot_parts(&r.report.collisions, &packed, &r.loaded);
                    },
                    None => {},
                }
            },
        }
        Some(parts)
    }

    /// Whether the spheres are to be placed anew; they are up to date then.
    pub fn update_spheres(&mut self) -> (changed: bool)
        ensures
            changed == old(self).spheres_dirty,
            *final(self) == (Studio { spheres_dirty: false, ..*old(self) }),
    {
        let changed = self.spheres_dirty;
        self.spheres_dirty = false;
        changed
    }

    /// The view settings were edited; new colors change the scene.
    pub fn view_controls(&mut self, recolored: bool)
        ensures
            *final(self) == (Studio {
                scene_dirty: old(self).scene_dirty || recolored,
                ..*old(self)
            }),
    {
        if recolored {
            self.scene_dirty = true;
        }
    }
}

/// A robot's scene shows every collision whose mesh is loaded, once and in
/// order, and no other.
pub proof fn every_loaded_mesh_is_shown_once(loaded: Seq<bool>, n: int)
    requires
        0 <= n <= loaded.len(),
    ensures
        forall|i: int| 0 <= i < n ==> loaded[i] == #[trigger] shown(loaded, n).contains(i),
        forall|k: int|
            0 <= k < shown(loaded, n).len() ==> 0 <= #[trigger] shown(loaded, n)[k] < n,
        forall|j: int, k: int|
            0 <= j < k < shown(loaded, n).len() ==> #[trigger] shown(loaded, n)[j]
                < #[trigger] shown(loaded, n)[k],
    decreases n,
{
    if n > 0 {
        every_loaded_mesh_is_shown_once(loaded, n - 1);
        let front = shown(loaded, n - 1);
        let all = shown(loaded, n);
        assert forall|i: int| 0 <= i < n implies loaded[i] == #[trigger] all.contains(i) by {
            if i < n - 1 {
                assert(loaded[i] == front.contains(i));
                if front.contains(i) {
                    let k = choose|k: int| 0 <= k < front.len() && front[k] == i;
                    assert(all[k] == i);
                }
            } else if loaded[i] {
                assert(all[front.len() as int] == i);
            }
        }
    }
}

} // verus!
