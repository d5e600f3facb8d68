//! Sprite sheets: a texture cut into named rectangles, read from the sheet's
//! description, with lookup of a sprite by name. Texture coordinates, which
//! are fractions of the sheet's size, are left to the caller.
use vstd::prelude::*;
use crate::atlas::URect;
use crate::parser::string_eq_str;

verus! {

/// The size of a sheet's texture and the texture's path.
pub struct MetaData {
    pub width: u32,
    pub height: u32,
    pub texture: String,
}

/// A sprite as a sheet's description gives it: its name and rectangle.
pub struct SerdeSprite {
    pub height: u32,
    pub width: u32,
    pub x: u32,
    pub y: u32,
    pub name: String,
}

/// A sprite sheet: its description's size and texture, the rectangle of
/// each sprite in order, and the index of each sprite name.
pub struct SpriteSheet {
    meta: MetaData,
    sprites: Vec<URect>,
    name_dict: Vec<(String, usize)>,
    source: Ghost<Seq<SerdeSprite>>,
}

/// The index of the last sprite among `sprites` named `name`.
pub open spec fn last_named(sprites: Seq<SerdeSprite>, name: Seq<char>) -> Option<usize>
    decreases sprites.len(),
{
    if sprites.len() == 0 {
        None
    } else if sprites.last().name@ == name {
        Some((sprites.len() - 1) as usize)
    } else {
        last_named(sprites.drop_last(), name)
    }
}

/// The names of a dictionary are distinct.
pub open spec fn distinct_names(d: Seq<(String, usize)>) -> bool {
    forall|i: int, j: int| 0 <= i < j < d.len() ==> d[i].0@ != d[j].0@
}

/// The value of `name` in a dictionary, if it holds the name.
pub open spec fn dict_get(d: Seq<(String, usize)>, name: Seq<char>) -> Option<usize> {
    if exists|i: int| 0 <= i < d.len() && (#[trigger] d[i]).0@ == name {
        Some(d[choose|i: int| 0 <= i < d.len() && (#[trigger] d[i]).0@ == name].1)
    } else {
        None
    }
}

/// The dictionary maps exactly the names of `sprites` to the index of the
/// last sprite with each name.
pub open spec fn indexes(d: Seq<(String, usize)>, sprites: Seq<SerdeSprite>) -> bool {
    &&& distinct_names(d)
    &&& forall|name: Seq<char>| dict_get(d, name) == #[trigger] last_named(sprites, name)
}

/// The rectangle of a sprite.
pub open spec fn sprite_rect(s: SerdeSprite) -> URect {
    URect { x: s.x, y: s.y, width: s.width, height: s.height }
}

proof fn lemma_dict_get_at(d: Seq<(String, usize)>, i: int)
    requires
        distinct_names(d),
        0 <= i < d.len(),
    ensures
        dict_get(d, d[i].0@) == Some(d[i].1),
{
    let name = d[i].0@;
    assert(exists|k: int| 0 <= k < d.len() && (#[trigger] d[k]).0@ == name);
    let j = choose|k: int| 0 <= k < d.len() && (#[trigger] d[k]).0@ == name;
    assert(j == i);
}

fn find_name(d: &Vec<(String, usize)>, name: &str) -> (r: Option<usize>)
    requires
        distinct_names(d@),
    ensures
        match r {
            Some(i) => i < d@.len() && d@[i as int].0@ == name@ && dict_get(d@, name@) == Some(d@[i as int].1),
            None => dict_get(d@, name@) is None,
        },
{
    let n = d.len();
    let mut i: usize = 0;
    while i < n
        invariant
            n == d.len(),
            i <= n,
            distinct_names(d@),
            forall|k: int| 0 <= k < i ==> (#[trigger] d@[k]).0@ != name@,
        decreases n - i,
    {
        if string_eq_str(&d[i].0, name) {
            proof {
                lemma_dict_get_at(d@, i as int);
            }
            return Some(i);
        }
        i = i + 1;
    }
    None
}

impl SpriteSheet {
    /// Reads a sheet from its description: each sprite keeps its rectangle,
    /// and a name stands for the last sprite that has it.
    pub fn create(meta: MetaData, sprites: Vec<SerdeSprite>) -> (sheet: SpriteSheet)
        ensures
            sheet.rects() == sprites@.map_values(|s: SerdeSprite| sprite_rect(s)),
            sheet.meta_data() == meta,
            sheet.wf(),
            sheet.described_by() == sprites@,
    {
        let mut name_dict: Vec<(String, usize)> = Vec::new();
        let mut rects: Vec<URect> = Vec::new();
        let n = sprites.len();
        let mut index: usize = 0;
        proof {
            assert(sprites@.take(0) =~= Seq::<SerdeSprite>::empty());
            assert forall|name: Seq<char>| dict_get(name_dict@, name) == #[trigger] last_named(sprites@.take(0), name) by {}
        }
        while index < n
            invariant
                n == sprites.len(),
                index <= n,
                indexes(name_dict@, sprites@.take(index as int)),
                rects@ == sprites@.take(index as int).map_values(|s: SerdeSprite| sprite_rect(s)),
            decreases n - index,
        {
            let s = &sprites[index];
            let ghost before = name_dict@;
            let ghost prefix = sprites@.take(index as int);
            let ghost next = sprites@.take(index + 1);
            proof {
                assert(next.drop_last() =~= prefix);
                assert(next.last() == *s);
            }
            match find_name(&name_dict, s.name.as_str()) {
                Some(k) => {
                    let key = name_dict[k].0.clone();
                    proof {
                        assert(key@ == s.name@);
                    }
                    name_dict.set(k, (key, index));
                    proof {
                        assert(distinct_names(name_dict@));
                        assert forall|name: Seq<char>| dict_get(name_dict@, name) == #[trigger] last_named(next, name) by {
                            if name == s.name@ {
                                lemma_dict_get_at(name_dict@, k as int);
                            } else {
                                assert(last_named(next, name) == last_named(prefix, name));
                                assert(dict_get(before, name) == last_named(prefix, name));
                                if exists|i: int| 0 <= i < name_dict@.len() && (#[trigger] name_dict@[i]).0@ == name {
                                    let i = choose|i: int| 0 <= i < name_dict@.len() && (#[trigger] name_dict@[i]).0@ == name;
                                    assert(i != k);
                                    assert(before[i] == name_dict@[i]);
                                    lemma_dict_get_at(name_dict@, i);
                                    lemma_dict_get_at(before, i);
                                } else {
                                    assert forall|i: int| 0 <= i < before.len() implies (#[trigger] before[i]).0@ != name by {
                                        if i != k {
                                            assert(before[i] == name_dict@[i]);
                                        }
                                    }
                                }
                            }
                        }
                    }
                },
                None => {
                    name_dict.push((s.name.clone(), index));
                    proof {
                        let d = name_dict@;
                        assert(d.last().0@ == s.name@);
                        assert forall|i: int, j: int| 0 <= i < j < d.len() implies d[i].0@ != d[j].0@ by {
                            if j == d.len() - 1 {
                                assert(dict_get(before, s.name@) is None);
                                if d[i].0@ == s.name@ {
                                    assert(before[i].0@ == s.name@);
                                }
                            }
                        }
                        assert forall|name: Seq<char>| dict_get(d, name) == #[trigger] last_named(next, name) by {
                            if name == s.name@ {
                                lemma_dict_get_at(d, d.len() - 1);
                            } else {
                                assert(last_named(next, name) == last_named(prefix, name));
                                assert(dict_get(before, name) == last_named(prefix, name));
                                if exists|i: int| 0 <= i < d.len() && (#[trigger] d[i]).0@ == name {
                                    let i = choose|i: int| 0 <= i < d.len() && (#[trigger] d[i]).0@ == name;
                                    assert(i < before.len());
                                    assert(before[i] == d[i]);
                                    lemma_dict_get_at(d, i);
                                    lemma_dict_get_at(before, i);
                                } else {
                                    assert forall|i: int| 0 <= i < before.len() implies (#[trigger] before[i]).0@ != name by {
                                        assert(before[i] == d[i]);
                                    }
                                }
                            }
                        }
                    }
                },
            }
            rects.push(URect { x: s.x, y: s.y, width: s.width, height: s.height });
            proof {
                assert(rects@ =~= next.map_values(|s: SerdeSprite| sprite_rect(s)));
            }
            index = index + 1;
        }
        proof {
            assert(sprites@.take(n as int) =~= sprites@);
        }
        SpriteSheet { meta, sprites: rects, name_dict, source: Ghost(sprites@) }
    }

    /// The rectangles of the sprites, in order.
    pub closed spec fn rects(&self) -> Seq<URect> {
        self.sprites@
    }

    /// The size and texture of the sheet.
    pub closed spec fn meta_data(&self) -> MetaData {
        self.meta
    }

    /// The rectangles of the sprites, in order.
    pub fn sprites(&self) -> (r: &Vec<URect>)
        ensures
            r@ == self.rects(),
    {
        &self.sprites
    }

    /// The size and texture of the sheet.
    pub fn meta(&self) -> (r: &MetaData)
        ensures
            *r == self.meta_data(),
    {
        &self.meta
    }

    /// The sprites of the description the sheet was read from.
    pub closed spec fn described_by(&self) -> Seq<SerdeSprite> {
        self.source@
    }

    /// Each name of the description stands for the last sprite that has it.
    pub closed spec fn wf(&self) -> bool {
        indexes(self.name_dict@, self.source@)
    }

    /// The index of the sprite named `name`, if the sheet has one: the last
    /// sprite of the description with that name.
    pub fn get_index(&self, name: &str) -> (r: Option<usize>)
        requires
            self.wf(),
        ensures
            r == last_named(self.described_by(), name@),
    {
        match find_name(&self.name_dict, name) {
            Some(k) => Some(self.name_dict[k].1),
            None => None,
        }
    }

    /// The names of the sheet, each once, with the index of the sprite it
    /// stands for; and the length in bytes of the longest name (0 if there
    /// is none).
    pub fn name_list(&self) -> (r: (Vec<(usize, String)>, usize))
        requires
            self.wf(),
        ensures
            forall|k: int|
                0 <= k < r.0@.len() ==> last_named(self.described_by(), (#[trigger] r.0@[k]).1@) == Some(
                    r.0@[k].0,
                ),
            forall|name: Seq<char>|
                #[trigger] last_named(self.described_by(), name) is Some ==> exists|k: int|
                    0 <= k < r.0@.len() && r.0@[k].1@ == name,
            forall|i: int, j: int| 0 <= i < j < r.0@.len() ==> r.0@[i].1@ != r.0@[j].1@,
            forall|k: int| 0 <= k < r.0@.len() ==> utf8_len((#[trigger] r.0@[k]).1@) <= r.1,
            r.0@.len() == 0 ==> r.1 == 0,
            r.0@.len() > 0 ==> exists|k: int| 0 <= k < r.0@.len() && utf8_len((#[trigger] r.0@[k]).1@) == r.1,
    {
        let mut list: Vec<(usize, String)> = Vec::new();
        let mut max_len: usize = 0;
        let n = self.name_dict.len();
        let mut i: usize = 0;
        while i < n
            invariant
                n == self.name_dict.len(),
                i <= n,
                indexes(self.name_dict@, self.source@),
                list@.len() == i,
                forall|k: int|
                    0 <= k < i ==> (#[trigger] list@[k]).0 == self.name_dict@[k].1 && list@[k].1@
                        == self.name_dict@[k].0@,
                forall|k: int| 0 <= k < i ==> utf8_len((#[trigger] list@[k]).1@) <= max_len,
                i == 0 ==> max_len == 0,
                i > 0 ==> exists|k: int| 0 <= k < i && utf8_len((#[trigger] list@[k]).1@) == max_len,
            decreases n - i,
        {
            let name = self.name_dict[i].0.clone();
            let len = str_byte_len(self.name_dict[i].0.as_str());
            proof {
                assert(name@ == self.name_dict@[i as int].0@);
            }
            let ghost old_list = list@;
            let ghost old_max = max_len;
            list.push((self.name_dict[i].1, name));
            if len > max_len {
                max_len = len;
            }
            proof {
                assert(utf8_len(list@[i as int].1@) == len);
                assert forall|k: int| 0 <= k < i implies list@[k] == old_list[k] by {}
                if len <= old_max && i > 0 {
                    let w = choose|k: int| 0 <= k < i && utf8_len((#[trigger] old_list[k]).1@) == old_max;
                    assert(list@[w] == old_list[w]);
                    assert(utf8_len(list@[w].1@) == max_len);
                }
            }
            i = i + 1;
        }
        proof {
            assert forall|k: int| 0 <= k < list@.len() implies last_named(self.source@, (#[trigger] list@[k]).1@)
                == Some(list@[k].0) by {
                lemma_dict_get_at(self.name_dict@, k);
            }
            assert forall|name: Seq<char>| #[trigger] last_named(self.source@, name) is Some implies exists|k: int|
                0 <= k < list@.len() && list@[k].1@ == name by {
                assert(dict_get(self.name_dict@, name) is Some);
                let k = choose|k: int| 0 <= k < self.name_dict@.len() && (#[trigger] self.name_dict@[k]).0@ == name;
                assert(list@[k].1@ == name);
            }
        }
        (list, max_len)
    }
}

/// How many bytes the UTF-8 encoding of a character takes.
pub open spec fn utf8_char_len(c: char) -> nat {
    let n = c as u32;
    if n < 0x80 {
        1
    } else if n < 0x800 {
        2
    } else if n < 0x10000 {
        3
    } else {
        4
    }
}

/// How many bytes the UTF-8 encoding of a string takes.
pub open spec fn utf8_len(s: Seq<char>) -> nat
    decreases s.len(),
{
    if s.len() == 0 {
        0
    } else {
        utf8_len(s.drop_last()) + utf8_char_len(s.last())
    }
}

/// `str::len`: the documentation says it is the length of the string in
/// bytes, that is of its UTF-8 encoding, which `utf8_len` counts.
#[verifier::external_body]
fn str_byte_len(s: &str) -> (r: usize)
    ensures
        r == utf8_len(s@),
{
    s.len()
}

/// The index of the sprite named `name` as the scripting layer takes it:
/// -1 if the sheet has none.
pub fn spritesheet_get_index(sheet: &SpriteSheet, name: &str) -> (r: i32)
    requires
        sheet.wf(),
    ensures
        r == match last_named(sheet.described_by(), name@) {
            Some(i) => i as i32,
            None => -1i32,
        },
{
    match sheet.get_index(name) {
        Some(i) => i as i32,
        None => -1,
    }
}

} // verus!
