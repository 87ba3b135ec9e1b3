//! Symbols: named, scoped semantic entities found by declaration analysis.
use crate::namespace::Namespace;
use crate::resource_table::StrId;
use crate::token::Token;
use vstd::prelude::*;

verus! {

/// Direction of a module port.
#[derive(Clone, Copy, Debug, PartialEq, Eq, Structural)]
pub enum Direction {
    Input,
    Output,
    Inout,
    Ref,
}

/// A port declared by a module: its name and direction.
#[derive(Clone, Copy, Debug, PartialEq, Eq, Structural)]
pub struct Port {
    pub name: StrId,
    pub direction: Direction,
}

/// What a module declares: its ports in declaration order.
pub struct ModuleProperty {
    pub ports: Vec<Port>,
}

/// What a port declaration declares.
#[derive(Clone, Copy, Debug, PartialEq, Eq, Structural)]
pub struct PortProperty {
    pub direction: Direction,
}

/// What an instantiation declares: the name of the instantiated entity.
#[derive(Clone, Copy, Debug, PartialEq, Eq, Structural)]
pub struct InstanceProperty {
    pub module_name: StrId,
}

/// The kind of a symbol, with what that kind carries.
pub enum SymbolKind {
    Port(PortProperty),
    Variable,
    Module(ModuleProperty),
    Interface,
    Function,
    Parameter,
    Instance(InstanceProperty),
    Block,
    Package,
}

/// The model of a symbol kind: a module's ports as a sequence.
pub enum SymbolKindView {
    Port(PortProperty),
    Variable,
    Module(Seq<Port>),
    Interface,
    Function,
    Parameter,
    Instance(InstanceProperty),
    Block,
    Package,
}

impl View for SymbolKind {
    type V = SymbolKindView;

    open spec fn view(&self) -> SymbolKindView {
        match self {
            SymbolKind::Port(p) => SymbolKindView::Port(*p),
            SymbolKind::Variable => SymbolKindView::Variable,
            SymbolKind::Module(m) => SymbolKindView::Module(m.ports@),
            SymbolKind::Interface => SymbolKindView::Interface,
            SymbolKind::Function => SymbolKindView::Function,
            SymbolKind::Parameter => SymbolKindView::Parameter,
            SymbolKind::Instance(i) => SymbolKindView::Instance(*i),
            SymbolKind::Block => SymbolKindView::Block,
            SymbolKind::Package => SymbolKindView::Package,
        }
    }
}

/// The word that names a kind in diagnostics.
pub open spec fn kind_name(kind: SymbolKindView) -> Seq<char> {
    match kind {
        SymbolKindView::Port(_) => "port"@,
        SymbolKindView::Variable => "variable"@,
        SymbolKindView::Module(_) => "module"@,
        SymbolKindView::Interface => "interface"@,
        SymbolKindView::Function => "function"@,
        SymbolKindView::Parameter => "parameter"@,
        SymbolKindView::Instance(_) => "instance"@,
        SymbolKindView::Block => "block"@,
        SymbolKindView::Package => "package"@,
    }
}

impl SymbolKind {
    /// The word that names this kind, such as `module` or `function`.
    pub fn to_kind_name(&self) -> (r: String)
        ensures
            r@ == kind_name(self@),
    {
        match self {
            SymbolKind::Port(_) => String::from_str("port"),
            SymbolKind::Variable => String::from_str("variable"),
            SymbolKind::Module(_) => String::from_str("module"),
            SymbolKind::Interface => String::from_str("interface"),
            SymbolKind::Function => String::from_str("function"),
            SymbolKind::Parameter => String::from_str("parameter"),
            SymbolKind::Instance(_) => String::from_str("instance"),
            SymbolKind::Block => String::from_str("block"),
            SymbolKind::Package => String::from_str("package"),
        }
    }
}

/// A declared entity: the token that declares it, its kind, and the scope
/// that was active at the declaration.
pub struct Symbol {
    pub token: Token,
    pub kind: SymbolKind,
    pub namespace: Namespace,
}

/// The model of a symbol: its token, kind and scope path.
pub struct SymbolView {
    pub token: Token,
    pub kind: SymbolKindView,
    pub namespace: Seq<StrId>,
}

impl View for Symbol {
    type V = SymbolView;

    open spec fn view(&self) -> SymbolView {
        SymbolView { token: self.token, kind: self.kind@, namespace: self.namespace@ }
    }
}

} // verus!
