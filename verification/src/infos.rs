//! The description catalog: read-only, index-addressed tables of image,
//! weapon and actor descriptions.
//!
//! The catalog is produced outside the engine (a configuration loader parses
//! documents, flattens inheritance and converts to fixed-point units) and
//! handed in as plain records.  Cross references — a weapon's projectile, an
//! actor's weapon, a frame's image — are already resolved to dense indices;
//! [`Infos::check`] decides whether a catalog is well-formed, and every
//! engine entry point requires a catalog that passed it.

use vstd::prelude::*;

use crate::fixed::{HEALTH_LIMIT, PI_MR, POS_LIMIT, RADIUS_LIMIT, TIME_LIMIT, VEL_LIMIT};
use crate::vec2::Vec2;

verus! {

/// Largest rate of fire (milli-shots per second) a weapon may have.
pub const RATE_OF_FIRE_LIMIT: i64 = 1_000_000;

/// A named image asset; the pixels live with the renderer, the engine only
/// addresses frames.
pub struct ImageInfo {
    pub name: String,
    pub path: String,
}

/// One animation frame: an image table index plus a frame number within it.
#[derive(Clone, Copy, PartialEq, Eq, Structural, Debug)]
pub struct ImageIndex {
    pub image: usize,
    pub frame: u16,
}

/// An immutable weapon description.
pub struct WeaponInfo {
    pub name: String,
    /// Shots per second, in milli-shots.
    pub rate_of_fire: i64,
    pub frames: Vec<ImageIndex>,
    /// Direct damage range (milli-points, low and high).
    pub damage: (i64, i64),
    /// Mount offset along the facing (milli-units).
    pub mount_offset: i64,
    /// Muzzle offset along the facing from the hand (milli-units).
    pub muzzle_offset: i64,
    /// Projectile spread half-angle (milli-radians).
    pub spread: i64,
    /// Engagement distance for bot wielders (milli-units).
    pub range: i64,
    /// Actor description spawned as the projectile, if any.
    pub projectile: Option<usize>,
}

/// An immutable actor description.
pub struct ActorInfo {
    pub name: String,
    pub frames: Vec<ImageIndex>,
    pub locomotion_frames: Vec<ImageIndex>,
    pub dead_frames: Vec<ImageIndex>,
    pub bot: bool,
    /// Top locomotion speed (milli-units per second).
    pub speed: i64,
    /// Collision disc radius (milli-units).
    pub radius: i64,
    pub missile: bool,
    pub shootable: bool,
    /// Starting health (milli-points).
    pub health: i64,
    pub solid: bool,
    pub particle: bool,
    /// Index of the starting weapon description.
    pub weapon: usize,
    /// Frame offset from the actor's center (milli-units).
    pub offset: Vec2,
    /// Rotate the frame to the facing instead of flipping it.
    pub rotate_to_face: bool,
    /// Direct damage range dealt on missile contact (milli-points).
    pub missile_direct_damage: (i64, i64),
    /// Splash damage range dealt on missile contact (milli-points).
    pub missile_splash_damage: (i64, i64),
    /// Lifetime in milliseconds; zero means no age limit.
    pub max_age: i64,
    /// Launch speed of a freshly spawned projectile (milli-units per second).
    pub velocity: i64,
}

/// The catalog of all descriptions, addressed by dense index.
pub struct Infos {
    pub images: Vec<ImageInfo>,
    pub weapons: Vec<WeaponInfo>,
    pub actors: Vec<ActorInfo>,
}

/// A damage range sits inside the health scale and is ordered.
pub open spec fn damage_range_wf(d: (i64, i64)) -> bool {
    0 <= d.0 <= d.1 <= HEALTH_LIMIT
}

/// All frames point into the image table.
pub open spec fn frames_wf(frames: Seq<ImageIndex>, n_images: int) -> bool {
    forall|j: int| 0 <= j < frames.len() ==> (#[trigger] frames[j]).image < n_images
}

impl WeaponInfo {
    /// Field bounds and resolved references.
    pub open spec fn wf(self, n_images: int, n_actors: int) -> bool {
        &&& 0 <= self.rate_of_fire <= RATE_OF_FIRE_LIMIT
        &&& frames_wf(self.frames@, n_images)
        &&& damage_range_wf(self.damage)
        &&& -RADIUS_LIMIT <= self.mount_offset <= RADIUS_LIMIT
        &&& 0 <= self.muzzle_offset <= RADIUS_LIMIT
        &&& 0 <= self.spread <= PI_MR
        &&& 0 <= self.range <= POS_LIMIT
        &&& match self.projectile {
            Some(i) => i < n_actors,
            None => true,
        }
    }
}

impl ActorInfo {
    /// Field bounds and resolved references.
    pub open spec fn wf(self, n_images: int, n_weapons: int) -> bool {
        &&& frames_wf(self.frames@, n_images)
        &&& frames_wf(self.locomotion_frames@, n_images)
        &&& frames_wf(self.dead_frames@, n_images)
        &&& 0 <= self.speed <= VEL_LIMIT
        &&& 0 <= self.radius <= RADIUS_LIMIT
        &&& 0 <= self.health <= HEALTH_LIMIT
        &&& self.weapon < n_weapons
        &&& self.offset.in_bounds(POS_LIMIT as int)
        &&& damage_range_wf(self.missile_direct_damage)
        &&& damage_range_wf(self.missile_splash_damage)
        &&& 0 <= self.max_age <= TIME_LIMIT
        &&& 0 <= self.velocity <= VEL_LIMIT
    }
}

impl Infos {
    /// Every record is well formed and actor and weapon names are unique, so
    /// that resolving by name is unambiguous.
    pub open spec fn wf(self) -> bool {
        &&& forall|i: int|
            0 <= i < self.weapons@.len() ==> (#[trigger] self.weapons@[i]).wf(
                self.images@.len() as int,
                self.actors@.len() as int,
            )
        &&& forall|i: int|
            0 <= i < self.actors@.len() ==> (#[trigger] self.actors@[i]).wf(
                self.images@.len() as int,
                self.weapons@.len() as int,
            )
        &&& forall|i: int, j: int|
            0 <= i < j < self.actors@.len() ==> self.actors@[i].name@ != self.actors@[j].name@
        &&& forall|i: int, j: int|
            0 <= i < j < self.weapons@.len() ==> self.weapons@[i].name@ != self.weapons@[j].name@
    }

    /// The catalog holds an actor description under this name.
    pub open spec fn has_actor_named(self, name: Seq<char>) -> bool {
        exists|i: int| 0 <= i < self.actors@.len() && (#[trigger] self.actors@[i]).name@ == name
    }

    /// The catalog holds a weapon description under this name.
    pub open spec fn has_weapon_named(self, name: Seq<char>) -> bool {
        exists|i: int| 0 <= i < self.weapons@.len() && (#[trigger] self.weapons@[i]).name@ == name
    }

    /// An empty catalog.
    pub fn new() -> (r: Infos)
        ensures
            r.wf(),
            r.images@.len() == 0,
            r.weapons@.len() == 0,
            r.actors@.len() == 0,
    {
        Infos { images: Vec::new(), weapons: Vec::new(), actors: Vec::new() }
    }

    /// Looks an actor description up by name; yields the unique index that
    /// carries the name, or nothing.
    pub fn find_actor(&self, name: &str) -> (r: Option<usize>)
        ensures
            match r {
                Some(i) => i < self.actors@.len() && self.actors@[i as int].name@ == name@,
                None => forall|j: int|
                    0 <= j < self.actors@.len() ==> (#[trigger] self.actors@[j]).name@ != name@,
            },
    {
        let key = name.to_owned();
        let n = self.actors.len();
        let mut i: usize = 0;
        while i < n
            invariant
                i <= n,
                n == self.actors@.len(),
                key@ == name@,
                forall|j: int| 0 <= j < i ==> (#[trigger] self.actors@[j]).name@ != name@,
            decreases n - i,
        {
            if self.actors[i].name == key {
                return Some(i);
            }
            i = i + 1;
        }
        None
    }

    /// Looks a weapon description up by name.
    pub fn find_weapon(&self, name: &str) -> (r: Option<usize>)
        ensures
            match r {
                Some(i) => i < self.weapons@.len() && self.weapons@[i as int].name@ == name@,
                None => forall|j: int|
                    0 <= j < self.weapons@.len() ==> (#[trigger] self.weapons@[j]).name@ != name@,
            },
    {
        let key = name.to_owned();
        let n = self.weapons.len();
        let mut i: usize = 0;
        while i < n
            invariant
                i <= n,
                n == self.weapons@.len(),
                key@ == name@,
                forall|j: int| 0 <= j < i ==> (#[trigger] self.weapons@[j]).name@ != name@,
            decreases n - i,
        {
            if self.weapons[i].name == key {
                return Some(i);
            }
            i = i + 1;
        }
        None
    }

    /// The actor description at `index`, if the index is in range.
    pub fn get_actor(&self, index: usize) -> (r: Option<&ActorInfo>)
        ensures
            match r {
                Some(a) => index < self.actors@.len() && *a == self.actors@[index as int],
                None => index >= self.actors@.len(),
            },
    {
        if index < self.actors.len() {
            Some(&self.actors[index])
        } else {
            None
        }
    }

    /// The weapon description at `index`, if the index is in range.
    pub fn get_weapon(&self, index: usize) -> (r: Option<&WeaponInfo>)
        ensures
            match r {
                Some(w) => index < self.weapons@.len() && *w == self.weapons@[index as int],
                None => index >= self.weapons@.len(),
            },
    {
        if index < self.weapons.len() {
            Some(&self.weapons[index])
        } else {
            None
        }
    }

    /// The image description at `index`, if the index is in range.
    pub fn get_image(&self, index: usize) -> (r: Option<&ImageInfo>)
        ensures
            match r {
                Some(im) => index < self.images@.len() && *im == self.images@[index as int],
                None => index >= self.images@.len(),
            },
    {
        if index < self.images.len() {
            Some(&self.images[index])
        } else {
            None
        }
    }

    /// Decides well-formedness, so that an externally built catalog can be
    /// validated before the engine touches it.
    pub fn check(&self) -> (r: bool)
        ensures
            r == self.wf(),
    {
        let n_images = self.images.len();
        let n_weapons = self.weapons.len();
        let n_actors = self.actors.len();
        let mut i: usize = 0;
        while i < n_weapons
            invariant
                i <= n_weapons,
                n_images == self.images@.len(),
                n_weapons == self.weapons@.len(),
                n_actors == self.actors@.len(),
                forall|j: int|
                    0 <= j < i ==> (#[trigger] self.weapons@[j]).wf(
                        n_images as int,
                        n_actors as int,
                    ),
            decreases n_weapons - i,
        {
            if !check_weapon(&self.weapons[i], n_images, n_actors) {
                return false;
            }
            i = i + 1;
        }
        let mut i: usize = 0;
        while i < n_actors
            invariant
                i <= n_actors,
                n_images == self.images@.len(),
                n_weapons == self.weapons@.len(),
                n_actors == self.actors@.len(),
                forall|j: int|
                    0 <= j < i ==> (#[trigger] self.actors@[j]).wf(
                        n_images as int,
                        n_weapons as int,
                    ),
            decreases n_actors - i,
        {
            if !check_actor(&self.actors[i], n_images, n_weapons) {
                return false;
            }
            i = i + 1;
        }
        let mut i: usize = 0;
        while i < n_actors
            invariant
                i <= n_actors,
                n_actors == self.actors@.len(),
                forall|a: int, b: int|
                    0 <= a < b < n_actors && a < i ==> self.actors@[a].name@ != self.actors@[b].name@,
            decreases n_actors - i,
        {
            let mut j: usize = i + 1;
            while j < n_actors
                invariant
                    i < j <= n_actors || (i + 1 == j && j > n_actors),
                    i < n_actors,
                    n_actors == self.actors@.len(),
                    forall|b: int| i < b < j ==> self.actors@[i as int].name@ != self.actors@[b].name@,
                decreases n_actors - j,
            {
                if self.actors[i].name == self.actors[j].name {
                    return false;
                }
                j = j + 1;
            }
            i = i + 1;
        }
        let mut i: usize = 0;
        while i < n_weapons
            invariant
                i <= n_weapons,
                n_weapons == self.weapons@.len(),
                forall|a: int, b: int|
                    0 <= a < b < n_weapons && a < i ==> self.weapons@[a].name@
                        != self.weapons@[b].name@,
            decreases n_weapons - i,
        {
            let mut j: usize = i + 1;
            while j < n_weapons
                invariant
                    i < j <= n_weapons || (i + 1 == j && j > n_weapons),
                    i < n_weapons,
                    n_weapons == self.weapons@.len(),
                    forall|b: int|
                        i < b < j ==> self.weapons@[i as int].name@ != self.weapons@[b].name@,
                decreases n_weapons - j,
            {
                if self.weapons[i].name == self.weapons[j].name {
                    return false;
                }
                j = j + 1;
            }
            i = i + 1;
        }
        true
    }
}

/// Decides whether a frame list points into the image table.
fn check_frames(frames: &Vec<ImageIndex>, n_images: usize) -> (r: bool)
    ensures
        r == frames_wf(frames@, n_images as int),
{
    let n = frames.len();
    let mut i: usize = 0;
    while i < n
        invariant
            i <= n,
            n == frames@.len(),
            forall|j: int| 0 <= j < i ==> (#[trigger] frames@[j]).image < n_images,
        decreases n - i,
    {
        if frames[i].image >= n_images {
            return false;
        }
        i = i + 1;
    }
    true
}

/// Decides whether a damage range is well formed.
fn check_damage_range(d: (i64, i64)) -> (r: bool)
    ensures
        r == damage_range_wf(d),
{
    0 <= d.0 && d.0 <= d.1 && d.1 <= HEALTH_LIMIT
}

/// Decides well-formedness of one weapon description.
fn check_weapon(w: &WeaponInfo, n_images: usize, n_actors: usize) -> (r: bool)
    ensures
        r == w.wf(n_images as int, n_actors as int),
{
    let proj_ok = match w.projectile {
        Some(i) => i < n_actors,
        None => true,
    };
    0 <= w.rate_of_fire && w.rate_of_fire <= RATE_OF_FIRE_LIMIT && check_frames(&w.frames, n_images)
        && check_damage_range(w.damage) && -RADIUS_LIMIT <= w.mount_offset && w.mount_offset
        <= RADIUS_LIMIT && 0 <= w.muzzle_offset && w.muzzle_offset <= RADIUS_LIMIT && 0 <= w.spread
        && w.spread <= PI_MR && 0 <= w.range && w.range <= POS_LIMIT && proj_ok
}

/// Decides well-formedness of one actor description.
fn check_actor(a: &ActorInfo, n_images: usize, n_weapons: usize) -> (r: bool)
    ensures
        r == a.wf(n_images as int, n_weapons as int),
{
    check_frames(&a.frames, n_images) && check_frames(&a.locomotion_frames, n_images)
        && check_frames(&a.dead_frames, n_images) && 0 <= a.speed && a.speed <= VEL_LIMIT && 0
        <= a.radius && a.radius <= RADIUS_LIMIT && 0 <= a.health && a.health <= HEALTH_LIMIT
        && a.weapon < n_weapons && -POS_LIMIT <= a.offset.x && a.offset.x <= POS_LIMIT && -POS_LIMIT
        <= a.offset.y && a.offset.y <= POS_LIMIT && check_damage_range(a.missile_direct_damage)
        && check_damage_range(a.missile_splash_damage) && 0 <= a.max_age && a.max_age <= TIME_LIMIT
        && 0 <= a.velocity && a.velocity <= VEL_LIMIT
}

} // verus!
