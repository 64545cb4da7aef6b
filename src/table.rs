//! Symbols and the stack of lexical scope frames that binds them.
use vstd::prelude::*;
use crate::ast::{CheckError, Type, TypeView, types_view};

verus! {

/// What a name denotes.
#[derive(Debug)]
pub enum SymbolTableItem {
    ConstVariable(i32),
    Variable,
    /// Dimensions and the flattened element values.
    ConstArray(Vec<usize>, Vec<i32>),
    Array(Vec<usize>),
    /// Return type and parameter types.
    Function(Type, Vec<Type>),
    /// An array parameter: its trailing dimensions.
    Pointer(Vec<usize>),
}

/// The mathematical model of a [`SymbolTableItem`].
pub enum SymbolView {
    ConstVariable(i32),
    Variable,
    ConstArray(Seq<usize>, Seq<i32>),
    Array(Seq<usize>),
    Function(TypeView, Seq<TypeView>),
    Pointer(Seq<usize>),
}

impl View for SymbolTableItem {
    type V = SymbolView;

    open spec fn view(&self) -> SymbolView {
        match self {
            SymbolTableItem::ConstVariable(v) => SymbolView::ConstVariable(*v),
            SymbolTableItem::Variable => SymbolView::Variable,
            SymbolTableItem::ConstArray(d, v) => SymbolView::ConstArray(d@, v@),
            SymbolTableItem::Array(d) => SymbolView::Array(d@),
            SymbolTableItem::Function(r, p) => SymbolView::Function(r@, types_view(p@)),
            SymbolTableItem::Pointer(d) => SymbolView::Pointer(d@),
        }
    }
}

/// One lexical level: names bound there, in the order of their binding.
pub type Frame = Seq<(Seq<char>, SymbolView)>;

/// The symbol bound to `name` in one frame.
pub open spec fn frame_find(f: Frame, name: Seq<char>) -> Option<SymbolView>
    decreases f.len(),
{
    if f.len() == 0 {
        None
    } else if f.last().0 == name {
        Some(f.last().1)
    } else {
        frame_find(f.drop_last(), name)
    }
}

/// The nearest visible symbol for `name`: frames are scanned innermost first.
pub open spec fn lookup(frames: Seq<Frame>, name: Seq<char>) -> Option<SymbolView>
    decreases frames.len(),
{
    if frames.len() == 0 {
        None
    } else {
        match frame_find(frames.last(), name) {
            Some(s) => Some(s),
            None => lookup(frames.drop_last(), name),
        }
    }
}

/// Binding `name` in the innermost frame; a name already bound there is refused.
pub open spec fn insert_spec(frames: Seq<Frame>, name: Seq<char>, s: SymbolView) -> Result<
    Seq<Frame>,
    CheckError,
> {
    if frame_find(frames.last(), name).is_some() {
        Err(CheckError::DuplicateDefinition)
    } else {
        Ok(frames.update(frames.len() - 1, frames.last().push((name, s))))
    }
}

pub open spec fn frame_view(f: Seq<(String, SymbolTableItem)>) -> Frame {
    f.map_values(|b: (String, SymbolTableItem)| (b.0@, b.1@))
}

/// A stack of scope frames, innermost last.
pub struct SymbolTable {
    frames: Vec<Vec<(String, SymbolTableItem)>>,
}

impl View for SymbolTable {
    type V = Seq<Frame>;

    closed spec fn view(&self) -> Seq<Frame> {
        self.frames@.map_values(|f: Vec<(String, SymbolTableItem)>| frame_view(f@))
    }
}

/// The outermost frame: the built-in functions.
pub open spec fn intrinsics() -> Seq<Frame> {
    let none = Seq::<TypeView>::empty();
    seq![
        seq![
            ("getint"@, SymbolView::Function(TypeView::Int, none)),
            ("getch"@, SymbolView::Function(TypeView::Int, none)),
            ("getarray"@, SymbolView::Function(TypeView::Int, seq![TypeView::Pointer(Seq::empty())])),
            ("putint"@, SymbolView::Function(TypeView::Void, seq![TypeView::Int])),
            ("putch"@, SymbolView::Function(TypeView::Void, seq![TypeView::Int])),
            (
                "putarray"@,
                SymbolView::Function(
                    TypeView::Int,
                    seq![TypeView::Int, TypeView::Pointer(Seq::empty())],
                ),
            ),
            ("starttime"@, SymbolView::Function(TypeView::Void, none)),
            ("stoptime"@, SymbolView::Function(TypeView::Void, none)),
        ],
    ]
}

/// The operations of a scope stack.
pub trait Scope: Sized {
    spec fn frames(&self) -> Seq<Frame>;

    /// A table with one frame, which holds the built-in functions.
    fn new() -> (r: Self)
        ensures
            r.frames() == intrinsics(),
    ;

    /// The nearest visible symbol bound to `identifier`.
    fn search(&self, identifier: &str) -> (r: Option<&SymbolTableItem>)
        ensures
            lookup(self.frames(), identifier@) == match r {
                Some(x) => Some(x@),
                None => None::<SymbolView>,
            },
    ;

    /// Binds `identifier` in the innermost frame, unless it is bound there already.
    fn insert_definition(&mut self, identifier: String, symbol: SymbolTableItem) -> (r: Result<
        (),
        CheckError,
    >)
        requires
            old(self).frames().len() > 0,
        ensures
            match insert_spec(old(self).frames(), identifier@, symbol@) {
                Ok(f) => r == Ok::<(), CheckError>(()) && final(self).frames() == f,
                Err(e) => r == Err::<(), CheckError>(e) && final(self).frames() == old(
                    self,
                ).frames(),
            },
    ;

    /// Opens an empty innermost frame.
    fn enter_scope(&mut self)
        ensures
            final(self).frames() == old(self).frames().push(Seq::empty()),
    ;

    /// Discards the innermost frame and all its bindings.
    fn exit_scope(&mut self)
        requires
            old(self).frames().len() > 0,
        ensures
            final(self).frames() == old(self).frames().drop_last(),
    ;
}

impl Scope for SymbolTable {
    open spec fn frames(&self) -> Seq<Frame> {
        self@
    }

    fn new() -> (r: Self) {
        let e1: Vec<usize> = Vec::new();
        let e2: Vec<usize> = Vec::new();
        let p_array = vec![Type::Pointer(e1)];
        let p_int1 = vec![Type::Int];
        let p_int2 = vec![Type::Int];
        let p_both = vec![Type::Int, Type::Pointer(e2)];
        proof {
            assert(e1@ =~= Seq::<usize>::empty());
            assert(e2@ =~= Seq::<usize>::empty());
            assert(types_view(p_array@) =~= seq![TypeView::Pointer(Seq::empty())]);
            assert(types_view(p_int1@) =~= seq![TypeView::Int]);
            assert(types_view(p_int2@) =~= seq![TypeView::Int]);
            assert(types_view(p_both@) =~= seq![TypeView::Int, TypeView::Pointer(Seq::empty())]);
        }
        let bindings = vec![
            ("getint".to_owned(), SymbolTableItem::Function(Type::Int, Vec::new())),
            ("getch".to_owned(), SymbolTableItem::Function(Type::Int, Vec::new())),
            ("getarray".to_owned(), SymbolTableItem::Function(Type::Int, p_array)),
            ("putint".to_owned(), SymbolTableItem::Function(Type::Void, p_int1)),
            ("putch".to_owned(), SymbolTableItem::Function(Type::Void, p_int2)),
            ("putarray".to_owned(), SymbolTableItem::Function(Type::Int, p_both)),
            ("starttime".to_owned(), SymbolTableItem::Function(Type::Void, Vec::new())),
            ("stoptime".to_owned(), SymbolTableItem::Function(Type::Void, Vec::new())),
        ];
        let table = SymbolTable { frames: vec![bindings] };
        proof {
            let none = Seq::<TypeView>::empty();
            assert(types_view(Seq::<Type>::empty()) =~= none);
            assert(types_view(seq![Type::Int]) =~= seq![TypeView::Int]);
            let fv = frame_view(bindings@);
            let want = intrinsics()[0];
            assert(fv.len() == want.len());
            assert(fv[0] == want[0]);
            assert(fv[1] == want[1]);
            assert(fv[2] == want[2]);
            assert(fv[3] == want[3]);
            assert(fv[4] == want[4]);
            assert(fv[5] == want[5]);
            assert(fv[6] == want[6]);
            assert(fv[7] == want[7]);
            assert(fv =~= want);
            assert(table@ =~= seq![frame_view(table.frames@[0]@)]);
            assert(table@ =~= intrinsics());
        }
        table
    }

    fn search(&self, identifier: &str) -> (r: Option<&SymbolTableItem>) {
        let ghost fs = self@;
        let key = identifier.to_owned();
        let mut i: usize = self.frames.len();
        assert(fs.take(i as int) =~= fs);
        while i > 0
            invariant
                i <= self.frames@.len(),
                fs == self@,
                lookup(fs, identifier@) == lookup(fs.take(i as int), identifier@),
                key@ == identifier@,
            decreases i,
        {
            let frame = &self.frames[i - 1];
            let ghost fv = fs[i - 1];
            assert(fs.take(i as int).last() == fv);
            assert(fs.take(i as int).drop_last() =~= fs.take(i - 1));
            assert(fv == frame_view(frame@));
            let mut j: usize = frame.len();
            assert(fv.take(j as int) =~= fv);
            while j > 0
                invariant
                    j <= frame@.len(),
                    fv == frame_view(frame@),
                    frame_find(fv, identifier@) == frame_find(fv.take(j as int), identifier@),
                    key@ == identifier@,
                    i > 0,
                    fs == self@,
                    lookup(fs, identifier@) == lookup(fs.take(i as int), identifier@),
                    fs.take(i as int).last() == fv,
                    fs.take(i as int).len() > 0,
                decreases j,
            {
                assert(fv.take(j as int).drop_last() =~= fv.take(j - 1));
                assert(fv.take(j as int).last() == (frame@[j - 1].0@, frame@[j - 1].1@));
                if frame[j - 1].0 == key {
                    assert(frame_find(fv, identifier@) == Some(frame@[j - 1].1@));
                    assert(lookup(fs.take(i as int), identifier@) == Some(frame@[j - 1].1@));
                    return Some(&frame[j - 1].1);
                }
                j = j - 1;
            }
            assert(fv.take(0) =~= Seq::empty());
            i = i - 1;
        }
        assert(fs.take(0) =~= Seq::empty());
        None
    }

    fn insert_definition(&mut self, identifier: String, symbol: SymbolTableItem) -> (r: Result<
        (),
        CheckError,
    >) {
        let last = self.frames.len() - 1;
        let mut j: usize = self.frames[last].len();
        let ghost fv = self@.last();
        assert(fv == frame_view(self.frames@[last as int]@));
        assert(fv.take(j as int) =~= fv);
        while j > 0
            invariant
                last == self.frames@.len() - 1,
                j <= self.frames@[last as int]@.len(),
                fv == frame_view(self.frames@[last as int]@),
                frame_find(fv, identifier@) == frame_find(fv.take(j as int), identifier@),
            decreases j,
        {
            assert(fv.take(j as int).drop_last() =~= fv.take(j - 1));
            assert(fv.take(j as int).last() == (
            self.frames@[last as int]@[j - 1].0@,
            self.frames@[last as int]@[j - 1].1@,
            ));
            if self.frames[last][j - 1].0 == identifier {
                return Err(CheckError::DuplicateDefinition);
            }
            j = j - 1;
        }
        assert(fv.take(0) =~= Seq::empty());
        let ghost old_view = self@;
        let mut top = self.frames.pop().unwrap();
        let ghost old_top = top@;
        top.push((identifier, symbol));
        self.frames.push(top);
        assert(frame_view(top@) =~= frame_view(old_top).push((identifier@, symbol@)));
        assert(self@ =~= old_view.update(old_view.len() - 1, fv.push((identifier@, symbol@))));
        Ok(())
    }

    fn enter_scope(&mut self) {
        let ghost old_view = self@;
        self.frames.push(Vec::new());
        assert(frame_view(Seq::empty()) =~= Seq::empty());
        assert(self@ =~= old_view.push(Seq::empty()));
    }

    fn exit_scope(&mut self) {
        let ghost old_view = self@;
        self.frames.pop();
        assert(self@ =~= old_view.drop_last());
    }
}

} // verus!
