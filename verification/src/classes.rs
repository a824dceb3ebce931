//! The size table: a finite ordered list of (radius, display-color) classes
//! plus one fallback default.  Connections reference a class index rather
//! than a raw radius; out-of-range indices resolve to the default entry.

use vstd::prelude::*;
use crate::num::{abs, Number, MAX_MAG, SCALE};
use crate::SizeId;

verus! {

/// One radius class: an arc radius and the color it is drawn with.
#[derive(Clone, Debug)]
pub struct Class {
    pub size: Number,
    pub color: String,
}

impl Class {
    pub fn new(size: Number, color: String) -> (r: Class)
        ensures
            r.size == size,
            r.color@ == color@,
    {
        Class { size, color }
    }
}

/// The color given to classes that name none.
pub fn generate_color() -> (r: String)
    ensures
        r@ == "white"@,
{
    let r: String = "white".to_string();
    r
}

/// The ordered table of radius classes, with a fallback default.
#[derive(Clone, Debug)]
pub struct Classes {
    pub items: Vec<Class>,
    pub fallback: Class,
}

impl Classes {
    /// Every radius in the table, and the fallback, is within the range the
    /// arc kernel accepts.
    pub open spec fn sizes_bounded(self) -> bool {
        &&& abs(self.fallback.size as int) <= MAX_MAG
        &&& forall|i: int|
            0 <= i < self.items@.len() ==> abs((#[trigger] self.items@[i]).size as int) <= MAX_MAG
    }

    /// The radius an index resolves to: the indexed entry, or the fallback
    /// for an out-of-range index.
    pub open spec fn size_of(self, id: int) -> int {
        if 0 <= id < self.items@.len() {
            self.items@[id].size as int
        } else {
            self.fallback.size as int
        }
    }

    /// Looks an index up in the table; out-of-range indices give the
    /// fallback radius.
    pub fn get_size(&self, id: SizeId) -> (r: Number)
        ensures
            r == self.size_of(id as int),
    {
        if id < self.items.len() {
            self.items[id].size
        } else {
            self.fallback.size
        }
    }

    /// Looks an index up in the table; out-of-range indices give the
    /// fallback color.
    pub fn get_color(&self, id: SizeId) -> (r: &str)
        ensures
            id < self.items@.len() ==> r@ == self.items@[id as int].color@,
            id >= self.items@.len() ==> r@ == self.fallback.color@,
    {
        if id < self.items.len() {
            self.items[id].color.as_str()
        } else {
            self.fallback.color.as_str()
        }
    }

    /// The previous class index, saturating at the first entry.
    pub fn previous(&self, id: SizeId) -> (r: SizeId)
        ensures
            r == if id > 0 {
                id - 1
            } else {
                0int
            },
    {
        if id <= 0 {
            return id;
        }
        id - 1
    }

    /// The next class index, saturating at the last entry.
    pub fn next(&self, id: SizeId) -> (r: SizeId)
        ensures
            r == if id + 1 < self.items@.len() {
                id + 1
            } else {
                id as int
            },
    {
        if id < self.items.len() && self.items.len() - id > 1 {
            id + 1
        } else {
            id
        }
    }
}

impl Default for Classes {
    /// The stock table: radii of 100, 200, 300 and 400 units in red, blue,
    /// purple and yellow, with a white 300-unit fallback.
    fn default() -> (r: Classes)
        ensures
            r.sizes_bounded(),
            r.items@.len() == 4,
            r.items@[0].size == 100 * SCALE,
            r.items@[1].size == 200 * SCALE,
            r.items@[2].size == 300 * SCALE,
            r.items@[3].size == 400 * SCALE,
            r.fallback.size == 300 * SCALE,
    {
        let mut items: Vec<Class> = Vec::new();
        items.push(Class::new(100 * SCALE, "red".to_string()));
        items.push(Class::new(200 * SCALE, "blue".to_string()));
        items.push(Class::new(300 * SCALE, "purple".to_string()));
        items.push(Class::new(400 * SCALE, "yellow".to_string()));
        let fallback = Class::new(300 * SCALE, "white".to_string());
        Classes { items, fallback }
    }
}

} // verus!
