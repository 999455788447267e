//! The scope stack: which names are declared, and in which lexical frame.
//!
//! A frame binds variable names to their source types and function names to
//! their signatures. Frame 0 is the global frame; entering a function body
//! pushes a frame and leaving it pops that frame.

use crate::table::StrMap;
use vstd::prelude::*;

verus! {

/// The signature of a declared function.
#[derive(Debug, Clone)]
pub struct Function {
    pub fn_name: String,
    /// The parameters in order, each as (type, name).
    pub paras: Vec<(String, String)>,
    /// The return type; `None` when the function produces no value.
    pub ret_type: Option<String>,
}

/// A function signature as plain text.
pub struct FunctionView {
    pub fn_name: Seq<char>,
    pub paras: Seq<(Seq<char>, Seq<char>)>,
    pub ret_type: Option<Seq<char>>,
}

/// A list of (type, name) pairs as plain text.
pub open spec fn pairs_view(pairs: Seq<(String, String)>) -> Seq<(Seq<char>, Seq<char>)> {
    Seq::new(pairs.len(), |i: int| (pairs[i].0@, pairs[i].1@))
}

/// An optional string as plain text.
pub open spec fn option_view(text: Option<String>) -> Option<Seq<char>> {
    match text {
        Some(t) => Some(t@),
        None => None,
    }
}

impl View for Function {
    type V = FunctionView;

    open spec fn view(&self) -> FunctionView {
        FunctionView {
            fn_name: self.fn_name@,
            paras: pairs_view(self.paras@),
            ret_type: option_view(self.ret_type),
        }
    }
}

/// One frame of the scope stack.
#[derive(Debug, Clone)]
pub struct SymbolTable {
    variables: StrMap<String>,
    functions: StrMap<Function>,
}

/// What one frame declares: variable names with their types, and function
/// names with their signatures.
pub struct SymbolTableView {
    pub variables: Map<Seq<char>, Seq<char>>,
    pub functions: Map<Seq<char>, FunctionView>,
}

/// The frame that declares nothing.
pub open spec fn empty_frame() -> SymbolTableView {
    SymbolTableView { variables: Map::empty(), functions: Map::empty() }
}

/// `frame` after the declaration of variable `name` with type `ty`.
pub open spec fn with_variable(
    frame: SymbolTableView,
    name: Seq<char>,
    ty: Seq<char>,
) -> SymbolTableView {
    SymbolTableView { variables: frame.variables.insert(name, ty), functions: frame.functions }
}

/// `frame` after the declaration of function `name` with signature `sig`.
pub open spec fn with_function(
    frame: SymbolTableView,
    name: Seq<char>,
    sig: FunctionView,
) -> SymbolTableView {
    SymbolTableView { variables: frame.variables, functions: frame.functions.insert(name, sig) }
}

impl View for SymbolTable {
    type V = SymbolTableView;

    closed spec fn view(&self) -> SymbolTableView {
        SymbolTableView { variables: self.variables@, functions: self.functions@ }
    }
}

impl SymbolTable {
    /// A frame that declares nothing.
    pub fn new() -> (table: Self)
        ensures
            table@ == empty_frame(),
    {
        Self { variables: StrMap::new(), functions: StrMap::new() }
    }

    /// Declares variable `name` with type `ty` in this frame. An earlier
    /// declaration of the same name is replaced: telling a redefinition is the
    /// caller's part.
    pub fn add_variable(&mut self, name: String, ty: String)
        ensures
            final(self)@ == with_variable(old(self)@, name@, ty@),
    {
        self.variables.insert(name, ty);
    }

    /// Declares function `name` with signature `func` in this frame.
    pub fn add_function(&mut self, name: String, func: Function)
        ensures
            final(self)@ == with_function(old(self)@, name@, func@),
    {
        self.functions.insert(name, func);
    }

    /// The type of variable `name`, if this frame declares it.
    pub fn lookup_variable(&self, name: &str) -> (r: Option<String>)
        ensures
            match r {
                Some(ty) => self@.variables.contains_key(name@) && ty@ == self@.variables[name@],
                None => !self@.variables.contains_key(name@),
            },
    {
        match self.variables.get(name) {
            Some(ty) => Some(ty.clone()),
            None => None,
        }
    }

    /// The signature of function `name`, if this frame declares it.
    pub fn lookup_function(&self, name: &str) -> (r: Option<&Function>)
        ensures
            match r {
                Some(f) => self@.functions.contains_key(name@) && f@ == self@.functions[name@],
                None => !self@.functions.contains_key(name@),
            },
    {
        self.functions.get(name)
    }

    /// Whether this frame declares variable `name`.
    pub fn has_variable(&self, name: &str) -> (r: bool)
        ensures
            r == self@.variables.contains_key(name@),
    {
        self.variables.contains_key(name)
    }

    /// Whether this frame declares function `name`.
    pub fn has_function(&self, name: &str) -> (r: bool)
        ensures
            r == self@.functions.contains_key(name@),
    {
        self.functions.contains_key(name)
    }
}

/// The stack of frames, global frame first.
#[derive(Debug)]
pub struct ScopeManager {
    pub stack: Vec<SymbolTable>,
}

impl View for ScopeManager {
    type V = Seq<SymbolTableView>;

    open spec fn view(&self) -> Seq<SymbolTableView> {
        Seq::new(self.stack@.len(), |i: int| self.stack@[i]@)
    }
}

/// The index of the innermost frame, among frames `0..=from`, that declares
/// variable `name`; -1 when none of them does.
pub open spec fn nearest_frame(frames: Seq<SymbolTableView>, name: Seq<char>, from: int) -> int
    decreases from + 1,
{
    if from < 0 {
        -1
    } else if frames[from].variables.contains_key(name) {
        from
    } else {
        nearest_frame(frames, name, from - 1)
    }
}

/// A reference binds to the nearest declaration: the frame that a walk from
/// `from` outward finds declares the name, no frame between it and `from`
/// does, and when the walk finds nothing no frame up to `from` declares it.
pub proof fn lemma_nearest_frame(frames: Seq<SymbolTableView>, name: Seq<char>, from: int)
    requires
        -1 <= from < frames.len(),
    ensures
        -1 <= nearest_frame(frames, name, from) <= from,
        nearest_frame(frames, name, from) >= 0 ==> frames[nearest_frame(
            frames,
            name,
            from,
        )].variables.contains_key(name),
        forall|j: int|
            nearest_frame(frames, name, from) < j <= from ==> !(#[trigger] frames[j]).variables.contains_key(
                name,
            ),
    decreases from + 1,
{
    if from >= 0 && !frames[from].variables.contains_key(name) {
        lemma_nearest_frame(frames, name, from - 1);
    }
}

/// A declaration in an inner frame hides the same name in every outer frame,
/// and only while the inner frame exists: with `name` declared at depth
/// `inner`, a walk from `inner` or deeper stops at the innermost declaring
/// frame, which is never below `inner`; a walk from a shallower depth sees
/// what it saw before the inner declaration was made.
pub proof fn lemma_shadowing(
    frames: Seq<SymbolTableView>,
    name: Seq<char>,
    ty: Seq<char>,
    inner: int,
    from: int,
)
    requires
        0 <= inner < frames.len(),
        0 <= from < frames.len(),
    ensures
        from >= inner ==> nearest_frame(
            frames.update(inner, with_variable(frames[inner], name, ty)),
            name,
            from,
        ) >= inner,
        from < inner ==> nearest_frame(
            frames.update(inner, with_variable(frames[inner], name, ty)),
            name,
            from,
        ) == nearest_frame(frames, name, from),
    decreases from + 1,
{
    let after = frames.update(inner, with_variable(frames[inner], name, ty));
    if from > inner {
        if !after[from].variables.contains_key(name) {
            lemma_shadowing(frames, name, ty, inner, from - 1);
        }
    } else if from < inner {
        assert(after[from] == frames[from]);
        if from > 0 {
            lemma_shadowing(frames, name, ty, inner, from - 1);
        }
    }
}

impl ScopeManager {
    /// A stack that holds the global frame alone, with nothing declared.
    pub fn new() -> (scopes: Self)
        ensures
            scopes@ == seq![empty_frame()],
    {
        let mut scopes = Self { stack: Vec::new() };
        scopes.push_scope();
        assert(scopes@ =~= seq![empty_frame()]);
        scopes
    }

    /// Enters a new innermost frame.
    pub fn push_scope(&mut self)
        ensures
            final(self)@ == old(self)@.push(empty_frame()),
    {
        self.stack.push(SymbolTable::new());
        assert(self@ =~= old(self)@.push(empty_frame()));
    }

    /// Leaves the innermost frame. The global frame is never left.
    pub fn pop_scope(&mut self)
        requires
            old(self)@.len() >= 2,
        ensures
            final(self)@ == old(self)@.drop_last(),
    {
        self.stack.pop();
        assert(self@ =~= old(self)@.drop_last());
    }

    /// The innermost frame, for declaring into it.
    pub fn current_scope_mut(&mut self) -> (frame: &mut SymbolTable)
        requires
            old(self)@.len() >= 1,
        ensures
            frame@ == old(self)@.last(),
            final(self)@ == old(self)@.update(old(self)@.len() - 1, final(frame)@),
    {
        let last: usize = self.stack.len() - 1;
        &mut self.stack[last]
    }

    /// The innermost frame.
    pub fn current_scope(&self) -> (frame: &SymbolTable)
        requires
            self@.len() >= 1,
        ensures
            frame@ == self@.last(),
    {
        &self.stack[self.stack.len() - 1]
    }

    /// The global frame.
    pub fn global_scope(&self) -> (frame: &SymbolTable)
        requires
            self@.len() >= 1,
        ensures
            frame@ == self@[0],
    {
        &self.stack[0]
    }

    /// The global frame, for declaring into it.
    pub fn global_scope_mut(&mut self) -> (frame: &mut SymbolTable)
        requires
            old(self)@.len() >= 1,
        ensures
            frame@ == old(self)@[0],
            final(self)@ == old(self)@.update(0, final(frame)@),
    {
        &mut self.stack[0]
    }

    /// Whether the innermost frame is the global one.
    pub fn is_global_scope(&self) -> (r: bool)
        ensures
            r == (self@.len() == 1),
    {
        self.stack.len() == 1
    }
}

/// The signature of the runtime's `echo`: a string and its length.
pub open spec fn echo_signature() -> FunctionView {
    FunctionView {
        fn_name: "echo"@,
        paras: seq![("str"@, "string"@), ("i32"@, "len"@)],
        ret_type: None,
    }
}

/// The signature of the runtime's `string`: a pointer to an integer.
pub open spec fn string_signature() -> FunctionView {
    FunctionView { fn_name: "string"@, paras: seq![("i32*"@, "num"@)], ret_type: None }
}

/// Declares the functions of the runtime library, `echo` and `string`, in the
/// global frame.
pub fn lib_insert_symbol(scopes: &mut ScopeManager)
    requires
        old(scopes)@.len() >= 1,
    ensures
        final(scopes)@ == old(scopes)@.update(
            0,
            with_function(
                with_function(old(scopes)@[0], "echo"@, echo_signature()),
                "string"@,
                string_signature(),
            ),
        ),
{
    let mut echo_paras: Vec<(String, String)> = Vec::new();
    echo_paras.push((String::from_str("str"), String::from_str("string")));
    echo_paras.push((String::from_str("i32"), String::from_str("len")));
    let echo = Function { fn_name: String::from_str("echo"), paras: echo_paras, ret_type: None };
    assert(echo@.paras =~= echo_signature().paras);
    let mut string_paras: Vec<(String, String)> = Vec::new();
    string_paras.push((String::from_str("i32*"), String::from_str("num")));
    let string = Function {
        fn_name: String::from_str("string"),
        paras: string_paras,
        ret_type: None,
    };
    assert(string@.paras =~= string_signature().paras);
    let global = scopes.global_scope_mut();
    global.add_function(String::from_str("echo"), echo);
    global.add_function(String::from_str("string"), string);
}

/// The type of global variable `name`, if the global frame declares it.
pub fn get_var(scopes: &ScopeManager, name: &str) -> (r: Option<String>)
    requires
        scopes@.len() >= 1,
    ensures
        match r {
            Some(ty) => scopes@[0].variables.contains_key(name@) && ty@
                == scopes@[0].variables[name@],
            None => !scopes@[0].variables.contains_key(name@),
        },
{
    scopes.global_scope().lookup_variable(name)
}

/// The depth of the innermost frame; 0 is the global frame.
pub fn current_index(scopes: &ScopeManager) -> (depth: usize)
    requires
        scopes@.len() >= 1,
    ensures
        depth == scopes@.len() - 1,
{
    scopes.stack.len() - 1
}

/// Declares variable `name` with type `var_type` in the innermost frame.
pub fn insert_var(scopes: &mut ScopeManager, name: String, var_type: String)
    requires
        old(scopes)@.len() >= 1,
    ensures
        final(scopes)@ == old(scopes)@.update(
            old(scopes)@.len() - 1,
            with_variable(old(scopes)@.last(), name@, var_type@),
        ),
{
    scopes.current_scope_mut().add_variable(name, var_type);
}

/// Walks from frame `scope` outward to the first frame that declares
/// variable `name`. Returns whether there is one, and leaves in `scope` the
/// index of that frame, or 0 when there is none.
pub fn has_var(scopes: &ScopeManager, name: &str, scope: &mut usize) -> (found: bool)
    requires
        *old(scope) < scopes@.len(),
    ensures
        found == (nearest_frame(scopes@, name@, *old(scope) as int) >= 0),
        found ==> *final(scope) == nearest_frame(scopes@, name@, *old(scope) as int),
        !found ==> *final(scope) == 0,
{
    loop
        invariant
            *scope <= *old(scope) < scopes@.len(),
            nearest_frame(scopes@, name@, *old(scope) as int) == nearest_frame(
                scopes@,
                name@,
                *scope as int,
            ),
        ensures
            *scope == 0,
            nearest_frame(scopes@, name@, *old(scope) as int) == -1,
        decreases *scope,
    {
        if scopes.stack[*scope].has_variable(name) {
            return true;
        } else if *scope == 0 {
            assert(nearest_frame(scopes@, name@, -1) == -1);
            break ;
        } else {
            *scope = *scope - 1;
        }
    }
    false
}

/// The signature of function `name`, if the global frame declares it.
pub fn get_fun(scopes: &ScopeManager, name: &str) -> (r: Option<Function>)
    requires
        scopes@.len() >= 1,
    ensures
        match r {
            Some(f) => scopes@[0].functions.contains_key(name@) && f@
                == scopes@[0].functions[name@],
            None => !scopes@[0].functions.contains_key(name@),
        },
{
    match scopes.global_scope().lookup_function(name) {
        Some(info) => Some(clone_function(info)),
        None => None,
    }
}

/// A copy of a list of (type, name) pairs.
pub fn clone_pairs(pairs: &Vec<(String, String)>) -> (copy: Vec<(String, String)>)
    ensures
        pairs_view(copy@) == pairs_view(pairs@),
{
    let mut copy: Vec<(String, String)> = Vec::new();
    let mut i: usize = 0;
    while i < pairs.len()
        invariant
            i <= pairs.len(),
            copy@.len() == i,
            forall|j: int| 0 <= j < i ==> (#[trigger] copy@[j]).0@ == pairs@[j].0@ && copy@[j].1@ == pairs@[j].1@,
        decreases pairs.len() - i,
    {
        copy.push((pairs[i].0.clone(), pairs[i].1.clone()));
        i = i + 1;
    }
    assert(pairs_view(copy@) =~= pairs_view(pairs@));
    copy
}

/// A copy of a signature.
pub fn clone_function(f: &Function) -> (copy: Function)
    ensures
        copy@ == f@,
{
    let ret_type = match &f.ret_type {
        Some(t) => Some(t.clone()),
        None => None,
    };
    Function { fn_name: f.fn_name.clone(), paras: clone_pairs(&f.paras), ret_type }
}

} // verus!
