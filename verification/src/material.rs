//! Settings of the material compiler, and the reader that splits the slot
//! code of a material pass into its GLSL functions.
use vstd::prelude::*;
use crate::text::{char_is_whitespace, chars_of, is_white_space, string_from_chars, string_push};
use crate::parser::string_eq_str;

verus! {

broadcast use vstd::string::group_string_axioms;

/// Where the material compiler finds its inputs and puts its output.
pub struct CompilerConfig {
    pub material_paths: Vec<String>,
    pub script_path: String,
    pub out_path: String,
    pub script_libs: Vec<String>,
    pub shader_libs: Vec<String>,
}

impl Default for CompilerConfig {
    fn default() -> (c: Self)
        ensures
            c.material_paths@.len() == 0,
            c.script_path@ == Seq::<char>::empty(),
            c.out_path@ == Seq::<char>::empty(),
            c.script_libs@.len() == 0,
            c.shader_libs@.len() == 0,
    {
        CompilerConfig {
            material_paths: Vec::new(),
            script_path: String::new(),
            out_path: String::new(),
            script_libs: Vec::new(),
            shader_libs: Vec::new(),
        }
    }
}

impl CompilerConfig {
    /// Settings that run the render script at `script_path`, with no
    /// material, library or output path yet.
    pub fn new(script_path: &str) -> (c: Self)
        ensures
            c.script_path@ == script_path@,
            c.material_paths@.len() == 0,
            c.out_path@ == Seq::<char>::empty(),
            c.script_libs@.len() == 0,
            c.shader_libs@.len() == 0,
    {
        CompilerConfig {
            out_path: String::new(),
            material_paths: Vec::new(),
            script_path: String::from_str(script_path),
            script_libs: Vec::new(),
            shader_libs: Vec::new(),
        }
    }

    /// Adds a directory to search for materials.
    pub fn add_material_path(&mut self, dir: &str)
        ensures
            final(self).material_paths@.len() == old(self).material_paths@.len() + 1,
            final(self).material_paths@.drop_last() == old(self).material_paths@,
            final(self).material_paths@.last()@ == dir@,
            final(self).script_path == old(self).script_path,
            final(self).out_path == old(self).out_path,
            final(self).script_libs == old(self).script_libs,
            final(self).shader_libs == old(self).shader_libs,
    {
        self.material_paths.push(String::from_str(dir));
        proof {
            assert(self.material_paths@.drop_last() =~= old(self).material_paths@);
        }
    }

    /// Adds a directory of render scripts.
    pub fn add_script_lib(&mut self, path: &str)
        ensures
            final(self).script_libs@.len() == old(self).script_libs@.len() + 1,
            final(self).script_libs@.drop_last() == old(self).script_libs@,
            final(self).script_libs@.last()@ == path@,
            final(self).material_paths == old(self).material_paths,
            final(self).script_path == old(self).script_path,
            final(self).out_path == old(self).out_path,
            final(self).shader_libs == old(self).shader_libs,
    {
        self.script_libs.push(String::from_str(path));
        proof {
            assert(self.script_libs@.drop_last() =~= old(self).script_libs@);
        }
    }

    /// Adds a directory of shader packages.
    pub fn add_shader_lib_path(&mut self, dir: &str)
        ensures
            final(self).shader_libs@.len() == old(self).shader_libs@.len() + 1,
            final(self).shader_libs@.drop_last() == old(self).shader_libs@,
            final(self).shader_libs@.last()@ == dir@,
            final(self).material_paths == old(self).material_paths,
            final(self).script_path == old(self).script_path,
            final(self).out_path == old(self).out_path,
            final(self).script_libs == old(self).script_libs,
    {
        self.shader_libs.push(String::from_str(dir));
        proof {
            assert(self.shader_libs@.drop_last() =~= old(self).shader_libs@);
        }
    }

    /// Sets the directory the compiled shaders go to.
    pub fn set_shader_out(&mut self, dir: &str)
        ensures
            final(self).out_path@ == dir@,
            final(self).material_paths == old(self).material_paths,
            final(self).script_path == old(self).script_path,
            final(self).script_libs == old(self).script_libs,
            final(self).shader_libs == old(self).shader_libs,
    {
        self.out_path = String::from_str(dir);
    }
}

/// What the reader is reading: nothing yet, the return type, the space after
/// it, the function's name, or the rest of the function up to its closing
/// brace.
#[derive(Debug, Clone, Copy, PartialEq, Eq)]
pub enum GLSLFuncState {
    Waiting,
    ReadType,
    ReadTypeEnd,
    ReadName,
    ReadBody,
}

impl Default for GLSLFuncState {
    fn default() -> (s: Self)
        ensures
            s == GLSLFuncState::Waiting,
    {
        GLSLFuncState::Waiting
    }
}

/// Reads a GLSL function character by character: its return type, its name,
/// and its whole text up to the brace that closes its body.
#[derive(Debug)]
pub struct GLSLFuncReader {
    fn_name: Option<String>,
    ret_type: Option<String>,
    body: Option<String>,
    state: GLSLFuncState,
    wait_body_end: bool,
    wait_count: u32,
}

/// The state of a [`GLSLFuncReader`].
pub struct ReaderView {
    pub fn_name: Option<Seq<char>>,
    pub ret_type: Option<Seq<char>>,
    pub body: Option<Seq<char>>,
    pub state: GLSLFuncState,
    pub wait_body_end: bool,
    pub wait_count: nat,
}

pub open spec fn opt_view(o: Option<String>) -> Option<Seq<char>> {
    match o {
        Some(s) => Some(s@),
        None => None,
    }
}

/// `o` with `c` appended, if there is a string.
pub open spec fn opt_push(o: Option<Seq<char>>, c: char) -> Option<Seq<char>> {
    match o {
        Some(s) => Some(s.push(c)),
        None => None,
    }
}

/// The state after `reset`.
pub open spec fn reset_view() -> ReaderView {
    ReaderView {
        fn_name: Some(Seq::empty()),
        ret_type: Some(Seq::empty()),
        body: Some(Seq::empty()),
        state: GLSLFuncState::Waiting,
        wait_body_end: false,
        wait_count: 0,
    }
}

/// Whether `on_char(c)` runs without overflow in state `v`: inside a body,
/// a `{` needs room for one more open brace and a `}` an open one to close.
pub open spec fn step_ok(v: ReaderView, c: char) -> bool {
    v.state == GLSLFuncState::ReadBody ==> {
        &&& (c == '{' ==> v.wait_count < u32::MAX)
        &&& (c == '}' ==> v.wait_count > 0)
    }
}

/// The state after reading `c` in state `v`, and whether `c` closed the
/// function's body. Every character from the first non-space one on joins
/// the body text; the return type is the first word; the name runs from the
/// next non-space character to the `(`; the function ends when the braces
/// opened after the `(` are all closed again.
pub open spec fn spec_on_char(v: ReaderView, c: char) -> (ReaderView, bool) {
    match v.state {
        GLSLFuncState::Waiting => if !is_white_space(c) {
            (
                ReaderView {
                    body: opt_push(v.body, c),
                    ret_type: opt_push(v.ret_type, c),
                    state: GLSLFuncState::ReadType,
                    ..v
                },
                false,
            )
        } else {
            (v, false)
        },
        GLSLFuncState::ReadType => if is_white_space(c) {
            (ReaderView { body: opt_push(v.body, c), state: GLSLFuncState::ReadTypeEnd, ..v }, false)
        } else {
            (ReaderView { body: opt_push(v.body, c), ret_type: opt_push(v.ret_type, c), ..v }, false)
        },
        GLSLFuncState::ReadTypeEnd => if !is_white_space(c) {
            (
                ReaderView {
                    body: opt_push(v.body, c),
                    fn_name: opt_push(v.fn_name, c),
                    state: GLSLFuncState::ReadName,
                    ..v
                },
                false,
            )
        } else {
            (ReaderView { body: opt_push(v.body, c), ..v }, false)
        },
        GLSLFuncState::ReadName => if c == '(' {
            (ReaderView { body: opt_push(v.body, c), state: GLSLFuncState::ReadBody, ..v }, false)
        } else {
            (ReaderView { body: opt_push(v.body, c), fn_name: opt_push(v.fn_name, c), ..v }, false)
        },
        GLSLFuncState::ReadBody => {
            let wait_body_end = if c == '{' { true } else { v.wait_body_end };
            let count1: int = if c == '{' { v.wait_count + 1int } else { v.wait_count as int };
            let count2: int = if c == '}' { count1 - 1 } else { count1 };
            (
                ReaderView {
                    body: opt_push(v.body, c),
                    wait_body_end,
                    wait_count: count2 as nat,
                    ..v
                },
                wait_body_end && count2 == 0,
            )
        },
    }
}

/// The functions found in `s` read from state `v`, added to `m` by name:
/// each time a function ends, its body text is recorded under its name
/// (replacing an earlier function of the same name) and the reader starts
/// afresh.
pub open spec fn spec_slots(v: ReaderView, s: Seq<char>, m: Map<Seq<char>, Seq<char>>) -> Map<
    Seq<char>,
    Seq<char>,
>
    decreases s.len(),
{
    if s.len() == 0 {
        m
    } else {
        let (v2, done) = spec_on_char(v, s[0]);
        if done {
            spec_slots(reset_view(), s.drop_first(), m.insert(v2.fn_name.unwrap(), v2.body.unwrap()))
        } else {
            spec_slots(v2, s.drop_first(), m)
        }
    }
}

/// Whether reading all of `s` from state `v` runs without overflow.
pub open spec fn slots_ok(v: ReaderView, s: Seq<char>) -> bool
    decreases s.len(),
{
    if s.len() == 0 {
        true
    } else {
        let (v2, done) = spec_on_char(v, s[0]);
        &&& step_ok(v, s[0])
        &&& if done {
            slots_ok(reset_view(), s.drop_first())
        } else {
            slots_ok(v2, s.drop_first())
        }
    }
}

impl Default for GLSLFuncReader {
    fn default() -> (r: Self)
        ensures
            r@ == (ReaderView {
                fn_name: None,
                ret_type: None,
                body: None,
                state: GLSLFuncState::Waiting,
                wait_body_end: false,
                wait_count: 0,
            }),
    {
        GLSLFuncReader {
            fn_name: None,
            ret_type: None,
            body: None,
            state: GLSLFuncState::Waiting,
            wait_body_end: false,
            wait_count: 0,
        }
    }
}

impl View for GLSLFuncReader {
    type V = ReaderView;

    closed spec fn view(&self) -> ReaderView {
        ReaderView {
            fn_name: opt_view(self.fn_name),
            ret_type: opt_view(self.ret_type),
            body: opt_view(self.body),
            state: self.state,
            wait_body_end: self.wait_body_end,
            wait_count: self.wait_count as nat,
        }
    }
}

/// Appends `c` to the string, if there is one.
fn push_opt(o: &mut Option<String>, c: char)
    ensures
        opt_view(*final(o)) == opt_push(opt_view(*old(o)), c),
{
    match o {
        Some(s) => {
            string_push(s, c);
        },
        None => {},
    }
}

impl GLSLFuncReader {
    /// Starts afresh: empty name, type and body, nothing read.
    pub fn reset(&mut self)
        ensures
            final(self)@ == reset_view(),
    {
        self.wait_body_end = false;
        self.state = GLSLFuncState::Waiting;
        self.fn_name = Some(String::new());
        self.ret_type = Some(String::new());
        self.body = Some(String::new());
        self.wait_count = 0u32;
    }

    /// Reads one character; returns whether it closed the function's body.
    pub fn on_char(&mut self, chr: char) -> (done: bool)
        requires
            step_ok(old(self)@, chr),
        ensures
            (final(self)@, done) == spec_on_char(old(self)@, chr),
    {
        match self.state {
            GLSLFuncState::Waiting => {
                if !char_is_whitespace(chr) {
                    push_opt(&mut self.body, chr);
                    push_opt(&mut self.ret_type, chr);
                    self.state = GLSLFuncState::ReadType;
                }
            },
            GLSLFuncState::ReadType => {
                push_opt(&mut self.body, chr);
                if char_is_whitespace(chr) {
                    self.state = GLSLFuncState::ReadTypeEnd;
                } else {
                    push_opt(&mut self.ret_type, chr);
                }
            },
            GLSLFuncState::ReadTypeEnd => {
                push_opt(&mut self.body, chr);
                if !char_is_whitespace(chr) {
                    push_opt(&mut self.fn_name, chr);
                    self.state = GLSLFuncState::ReadName;
                }
            },
            GLSLFuncState::ReadName => {
                push_opt(&mut self.body, chr);
                if chr == '(' {
                    self.state = GLSLFuncState::ReadBody;
                } else {
                    push_opt(&mut self.fn_name, chr);
                }
            },
            GLSLFuncState::ReadBody => {
                push_opt(&mut self.body, chr);
                if chr == '{' {
                    if !self.wait_body_end {
                        self.wait_body_end = true;
                    }
                    self.wait_count += 1;
                }
                if chr == '}' {
                    self.wait_count -= 1;
                }
                if self.wait_body_end && self.wait_count == 0 {
                    return true;
                }
            },
        }
        false
    }

    /// Takes the name read so far, leaving none.
    fn take_name(&mut self) -> (n: Option<String>)
        ensures
            opt_view(n) == old(self)@.fn_name,
            final(self)@ == (ReaderView { fn_name: None, ..old(self)@ }),
    {
        self.fn_name.take()
    }

    /// Takes the body read so far, leaving none.
    fn take_body(&mut self) -> (b: Option<String>)
        ensures
            opt_view(b) == old(self)@.body,
            final(self)@ == (ReaderView { body: None, ..old(self)@ }),
    {
        self.body.take()
    }

    /// Whether reading `chr` keeps the brace count in range.
    pub fn can_read(&self, chr: char) -> (r: bool)
        ensures
            r == step_ok(self@, chr),
    {
        match self.state {
            GLSLFuncState::ReadBody => {
                (chr != '{' || self.wait_count < u32::MAX) && (chr != '}' || self.wait_count > 0)
            },
            _ => true,
        }
    }
}

/// The map of a list of name and text pairs: later pairs win.
pub open spec fn dict_view(v: Seq<(String, String)>) -> Map<Seq<char>, Seq<char>>
    decreases v.len(),
{
    if v.len() == 0 {
        Map::empty()
    } else {
        dict_view(v.drop_last()).insert(v.last().0@, v.last().1@)
    }
}

/// No name occurs twice.
pub open spec fn distinct_keys(v: Seq<(String, String)>) -> bool {
    forall|i: int, j: int| 0 <= i < j < v.len() ==> v[i].0@ != v[j].0@
}

proof fn lemma_dict_update(v: Seq<(String, String)>, j: int, k: String, val: String)
    requires
        distinct_keys(v),
        0 <= j < v.len(),
        v[j].0@ == k@,
    ensures
        dict_view(v.update(j, (k, val))) == dict_view(v).insert(k@, val@),
        distinct_keys(v.update(j, (k, val))),
    decreases v.len(),
{
    let u = v.update(j, (k, val));
    if j == v.len() - 1 {
        assert(u.drop_last() =~= v.drop_last());
        lemma_dict_absent(v.drop_last(), k@);
        assert(dict_view(u) =~= dict_view(v).insert(k@, val@));
    } else {
        assert(u.drop_last() =~= v.drop_last().update(j, (k, val)));
        lemma_dict_update(v.drop_last(), j, k, val);
        assert(dict_view(u) =~= dict_view(v).insert(k@, val@));
    }
}

proof fn lemma_dict_absent(v: Seq<(String, String)>, k: Seq<char>)
    requires
        forall|i: int| 0 <= i < v.len() ==> v[i].0@ != k,
    ensures
        !dict_view(v).contains_key(k),
    decreases v.len(),
{
    if v.len() > 0 {
        lemma_dict_absent(v.drop_last(), k);
    }
}

/// Records `body` under `name`, replacing the text of an earlier entry of
/// that name.
fn dict_insert(dict: &mut Vec<(String, String)>, name: String, body: String)
    requires
        distinct_keys(old(dict)@),
    ensures
        distinct_keys(final(dict)@),
        dict_view(final(dict)@) == dict_view(old(dict)@).insert(name@, body@),
{
    let n = dict.len();
    let mut i: usize = 0;
    while i < n
        invariant
            n == dict.len(),
            i <= n,
            dict@ == old(dict)@,
            distinct_keys(dict@),
            forall|k: int| 0 <= k < i ==> dict@[k].0@ != name@,
        decreases n - i,
    {
        if string_eq_str(&dict[i].0, name.as_str()) {
            let ghost v = dict@;
            let ghost entry = (name, body);
            proof {
                lemma_dict_update(v, i as int, name, body);
            }
            dict.set(i, (name, body));
            proof {
                assert(dict@ == v.update(i as int, entry));
            }
            return ;
        }
        i = i + 1;
    }
    let ghost v = dict@;
    dict.push((name, body));
    proof {
        assert(dict@.drop_last() =~= v);
    }
}

/// The GLSL functions of a pass's slot code, each recorded under its name
/// with its whole text.
pub fn process_slot_string(string: &str) -> (slots: Vec<(String, String)>)
    requires
        slots_ok(reset_view(), string@),
    ensures
        distinct_keys(slots@),
        dict_view(slots@) == spec_slots(reset_view(), string@, Map::empty()),
{
    let mut glsl_func = GLSLFuncReader::default();
    let mut slot_dict: Vec<(String, String)> = Vec::new();
    glsl_func.reset();
    let chars = chars_of(string);
    let n = chars.len();
    let mut i: usize = 0;
    proof {
        assert(chars@.skip(0) =~= string@);
    }
    while i < n
        invariant
            n == chars.len(),
            chars@ == string@,
            i <= n,
            distinct_keys(slot_dict@),
            glsl_func@.fn_name is Some,
            glsl_func@.body is Some,
            glsl_func@.ret_type is Some,
            slots_ok(glsl_func@, chars@.skip(i as int)),
            spec_slots(glsl_func@, chars@.skip(i as int), dict_view(slot_dict@)) == spec_slots(
                reset_view(),
                string@,
                Map::empty(),
            ),
        decreases n - i,
    {
        let chr = chars[i];
        proof {
            assert(chars@.skip(i as int)[0] == chr);
            assert(chars@.skip(i as int).drop_first() =~= chars@.skip(i + 1));
        }
        if glsl_func.on_char(chr) {
            let name = glsl_func.take_name();
            let body = glsl_func.take_body();
            match (name, body) {
                (Some(name), Some(body)) => {
                    dict_insert(&mut slot_dict, name, body);
                },
                _ => {},
            }
            glsl_func.reset();
        }
        i = i + 1;
    }
    proof {
        assert(chars@.skip(n as int) =~= Seq::<char>::empty());
    }
    slot_dict
}


/// Whether the slot code `string` can be read without a brace count going
/// out of range: no `}` closes a body whose braces are all closed, and no
/// `{` opens one past `u32::MAX`. `process_slot_string` reads exactly such
/// code.
pub fn slots_in_range(string: &str) -> (r: bool)
    ensures
        r == slots_ok(reset_view(), string@),
{
    let mut glsl_func = GLSLFuncReader::default();
    glsl_func.reset();
    let chars = chars_of(string);
    let n = chars.len();
    let mut i: usize = 0;
    proof {
        assert(chars@.skip(0) =~= string@);
    }
    while i < n
        invariant
            n == chars.len(),
            chars@ == string@,
            i <= n,
            glsl_func@.fn_name is Some,
            glsl_func@.body is Some,
            glsl_func@.ret_type is Some,
            slots_ok(reset_view(), string@) == slots_ok(glsl_func@, chars@.skip(i as int)),
        decreases n - i,
    {
        let chr = chars[i];
        proof {
            assert(chars@.skip(i as int)[0] == chr);
            assert(chars@.skip(i as int).drop_first() =~= chars@.skip(i + 1));
        }
        if !glsl_func.can_read(chr) {
            return false;
        }
        if glsl_func.on_char(chr) {
            glsl_func.reset();
        }
        i = i + 1;
    }
    proof {
        assert(chars@.skip(n as int) =~= Seq::<char>::empty());
    }
    true
}

/// How many times `c` occurs in `s`.
pub open spec fn count_char(s: Seq<char>, c: char) -> nat
    decreases s.len(),
{
    if s.len() == 0 {
        0
    } else {
        count_char(s.drop_last(), c) + if s.last() == c {
            1nat
        } else {
            0nat
        }
    }
}

/// The package and the shader of a pass's shader name,
/// `<package>.<shader>`: the name split at its dots must give exactly two
/// parts, so it holds exactly one dot; there is no result otherwise.
pub fn shader_name_parts(name: &str) -> (r: Option<(String, String)>)
    ensures
        r is Some <==> count_char(name@, '.') == 1,
        r matches Some((pkg, shader)) ==> name@ == pkg@ + seq!['.'] + shader@ && count_char(pkg@, '.') == 0
            && count_char(shader@, '.') == 0,
{
    let cs = chars_of(name);
    let n = cs.len();
    let mut dots: usize = 0;
    let mut at: usize = 0;
    let mut i: usize = 0;
    while i < n
        invariant
            n == cs.len(),
            cs@ == name@,
            i <= n,
            dots == count_char(cs@.take(i as int), '.'),
            dots <= i,
            dots >= 1 ==> at < i && cs@[at as int] == '.' && count_char(cs@.take(at as int), '.') == dots - 1,
        decreases n - i,
    {
        proof {
            assert(cs@.take(i + 1).drop_last() =~= cs@.take(i as int));
        }
        if cs[i] == '.' {
            dots = dots + 1;
            at = i;
        }
        i = i + 1;
    }
    proof {
        assert(cs@.take(n as int) =~= cs@);
    }
    if dots != 1 {
        return None;
    }
    let pkg = string_from_chars(&cs, 0, at);
    let shader = string_from_chars(&cs, at + 1, n);
    proof {
        assert(cs@.take(at as int) =~= cs@.subrange(0, at as int));
        lemma_count_after(cs@, at as int);
        assert(cs@ =~= cs@.subrange(0, at as int) + seq!['.'] + cs@.subrange(at + 1, n as int));
    }
    Some((pkg, shader))
}

proof fn lemma_count_split(a: Seq<char>, b: Seq<char>, c: char)
    ensures
        count_char(a + b, c) == count_char(a, c) + count_char(b, c),
    decreases b.len(),
{
    if b.len() == 0 {
        assert(a + b =~= a);
    } else {
        lemma_count_split(a, b.drop_last(), c);
        assert((a + b).drop_last() =~= a + b.drop_last());
    }
}

proof fn lemma_count_after(s: Seq<char>, at: int)
    requires
        0 <= at < s.len(),
        s[at] == '.',
        count_char(s, '.') == 1,
        count_char(s.take(at), '.') == 0,
    ensures
        count_char(s.subrange(at + 1, s.len() as int), '.') == 0,
{
    let a = s.take(at);
    let rest = s.subrange(at + 1, s.len() as int);
    assert(s =~= a + seq!['.'] + rest);
    lemma_count_split(a + seq!['.'], rest, '.');
    lemma_count_split(a, seq!['.'], '.');
    assert(seq!['.'].drop_last() =~= Seq::<char>::empty());
}

} // verus!
