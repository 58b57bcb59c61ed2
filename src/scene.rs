//! The scene: elements, lights, camera and rendering parameters, and the
//! search for the nearest element along a ray.
use vstd::prelude::*;
use crate::geometry::{Element, Intersectable, Intersection, Ray};
use crate::light::Light;

verus! {

pub struct Scene {
    pub width: u32,
    pub height: u32,
    /// Field of view in degrees, fixed-point. The camera keeps a fixed
    /// 90-degree vertical view and does not read it.
    pub fov: i64,
    pub elements: Vec<Element>,
    pub lights: Vec<Light>,
    /// Offset along the surface normal of shadow and reflection ray
    /// origins, fixed-point.
    pub bias: i64,
    /// Number of nested raycasts: zero renders black, one shades without
    /// reflections.
    pub max_rec: u32,
}

/// The nearest hit among the first `n` elements; on equal distances the
/// earliest element wins.
pub open spec fn nearest_upto(elements: Seq<Element>, ray: Ray, n: nat) -> Option<Intersection>
    decreases n,
{
    if n == 0 {
        None
    } else {
        let best = nearest_upto(elements, ray, (n - 1) as nat);
        match elements[n - 1].intersect_spec(ray) {
            None => best,
            Some(d) => match best {
                Some(b) if b.distance <= d => best,
                _ => Some(Intersection { distance: d, element: (n - 1) as usize }),
            },
        }
    }
}

pub open spec fn nearest(elements: Seq<Element>, ray: Ray) -> Option<Intersection> {
    nearest_upto(elements, ray, elements.len())
}

/// The nearest hit is a hit of the element it names, no element is hit
/// closer, and no earlier element is hit as close; with no hit at all there
/// is none.
pub proof fn lemma_nearest_is_minimum(elements: Seq<Element>, ray: Ray, n: nat)
    requires
        n <= elements.len() <= usize::MAX,
    ensures
        nearest_upto(elements, ray, n) is None <==> forall|i: int|
            0 <= i < n ==> (#[trigger] elements[i].intersect_spec(ray)) is None,
        nearest_upto(elements, ray, n) matches Some(b) ==> {
            &&& b.element < n
            &&& elements[b.element as int].intersect_spec(ray) == Some(b.distance)
            &&& forall|i: int|
                0 <= i < n ==> (#[trigger] elements[i].intersect_spec(ray) matches Some(d) ==> b.distance
                    <= d)
            &&& forall|i: int|
                0 <= i < b.element ==> (#[trigger] elements[i].intersect_spec(ray) matches Some(d)
                    ==> b.distance < d)
        },
    decreases n,
{
    if n > 0 {
        lemma_nearest_is_minimum(elements, ray, (n - 1) as nat);
    }
}

/// Why a scene cannot be rendered.
#[derive(Clone, Copy, Debug, PartialEq, Eq, Structural)]
pub enum ConfigError {
    /// The camera needs a frame wider than it is tall, and not empty.
    BadDimensions,
    /// The frame's bytes do not fit in memory.
    TooLarge,
    /// The element at this index has an image texture without pixels.
    EmptyTexture { element: usize },
}

impl Scene {
    pub fn new(
        width: u32,
        height: u32,
        fov: i64,
        elements: Vec<Element>,
        lights: Vec<Light>,
        bias: i64,
        max_rec: u32,
    ) -> (r: Scene)
        ensures
            r.width == width,
            r.height == height,
            r.fov == fov,
            r.elements@ == elements@,
            r.lights@ == lights@,
            r.bias == bias,
            r.max_rec == max_rec,
    {
        Scene { width, height, fov, elements, lights, bias, max_rec }
    }

    /// Every element's texture can be sampled.
    pub open spec fn wf(&self) -> bool {
        forall|i: int| 0 <= i < self.elements@.len() ==> (#[trigger] self.elements@[i]).wf()
    }

    /// Checks what rendering the scene requires, in this order: the frame's
    /// shape, its size, then each element's texture.
    pub fn validate(&self) -> (r: Result<(), ConfigError>)
        ensures
            !(self.width > self.height > 0) ==> r == Err::<(), _>(ConfigError::BadDimensions),
            self.width > self.height > 0 && 3 * (self.width as int) * (self.height as int)
                > usize::MAX ==> r == Err::<(), _>(ConfigError::TooLarge),
            self.width > self.height > 0 && 3 * (self.width as int) * (self.height as int)
                <= usize::MAX ==> {
                &&& (r is Ok <==> self.wf())
                &&& (r matches Err(ConfigError::EmptyTexture { element }) ==> {
                    &&& element < self.elements@.len()
                    &&& !self.elements@[element as int].wf()
                    &&& forall|j: int| 0 <= j < element ==> (#[trigger] self.elements@[j]).wf()
                })
                &&& (r is Err ==> r matches Err(ConfigError::EmptyTexture { .. }))
            },
    {
        if !(self.width > self.height && self.height > 0) {
            return Err(ConfigError::BadDimensions);
        }
        let w = self.width as u64;
        let h = self.height as u64;
        assert(w * h <= 0xffff_ffff * 0xffff_ffff) by (nonlinear_arith)
            requires
                w <= 0xffff_ffff,
                h <= 0xffff_ffff,
        ;
        assert(3 * (w * h) == 3 * (self.width as int) * (self.height as int)) by (nonlinear_arith)
            requires
                w == self.width,
                h == self.height,
        ;
        if (3 * (w * h) as u128) > usize::MAX as u128 {
            return Err(ConfigError::TooLarge);
        }
        let mut i: usize = 0;
        while i < self.elements.len()
            invariant
                self.width > self.height > 0,
                3 * (self.width as int) * (self.height as int) <= usize::MAX,
                i <= self.elements@.len(),
                forall|j: int| 0 <= j < i ==> (#[trigger] self.elements@[j]).wf(),
            decreases self.elements@.len() - i,
        {
            if !self.elements[i].material().color.is_sampleable() {
                return Err(ConfigError::EmptyTexture { element: i });
            }
            i = i + 1;
        }
        Ok(())
    }

    /// The nearest element hit by the ray, if any.
    pub fn trace(&self, ray: &Ray) -> (r: Option<Intersection>)
        ensures
            r == nearest(self.elements@, *ray),
            r matches Some(b) ==> b.element < self.elements@.len(),
    {
        let mut best: Option<Intersection> = None;
        let mut i: usize = 0;
        while i < self.elements.len()
            invariant
                i <= self.elements@.len(),
                best == nearest_upto(self.elements@, *ray, i as nat),
            decreases self.elements@.len() - i,
        {
            match self.elements[i].intersect(ray) {
                None => {},
                Some(d) => {
                    let closer = match best {
                        Some(b) => d < b.distance,
                        None => true,
                    };
                    if closer {
                        best = Some(Intersection::new(d, i));
                    }
                },
            }
            i = i + 1;
        }
        proof {
            lemma_nearest_is_minimum(self.elements@, *ray, self.elements@.len());
        }
        best
    }
}

} // verus!
