//! The analysis driver: declaration collection, then the checks, over one
//! file's syntax tree.
use crate::analyze_error::AnalyzeError;
use crate::check_module_instance::{error_views, lemma_checks_instances, subtree_errors, CheckModuleInstance};
use crate::create_symbol_table::{
    declarations, lemma_collects_declarations, record_all, token_scopes, CreateSymbolTable,
};
use crate::namespace_table::{recorded_outside, recorded_scope, records, NamespaceTable};
use crate::resource_table::PathId;
use crate::symbol::Symbol;
use crate::symbol_table::{outside_file, resolved, Name, SymbolTable};
use crate::syntax_tree::{Event, SyntaxTree};
use crate::token::Token;
use crate::veryl_walker::VerylWalker;
use vstd::prelude::*;

verus! {

/// The tables that analysis fills, owned in one place and handed to each pass.
pub struct Analyzer {
    pub symbol_table: SymbolTable,
    pub namespace_table: NamespaceTable,
}

impl Analyzer {
    /// An analyzer with empty tables.
    pub fn new() -> (r: Self)
        ensures
            r.symbol_table.entries().len() == 0,
            r.namespace_table.entries().len() == 0,
            r.namespace_table.wf(),
    {
        Analyzer { symbol_table: SymbolTable::new(), namespace_table: NamespaceTable::new() }
    }

    /// Forgets everything recorded for the file `file_path`; to be called
    /// before that file is analysed again.
    pub fn drop_file(&mut self, file_path: PathId)
        ensures
            final(self).symbol_table.entries() == old(self).symbol_table.entries().filter(outside_file(file_path)),
            final(self).namespace_table.entries() == old(self).namespace_table.entries().filter(
                recorded_outside(file_path),
            ),
            old(self).namespace_table.wf() ==> final(self).namespace_table.wf(),
    {
        self.symbol_table.drop(file_path);
        self.namespace_table.drop(file_path);
    }

    /// Analyses one file, given its tree and source text: collects its
    /// declarations into the tables, then checks it against them, and
    /// returns the diagnostics found.
    pub fn analyze(&mut self, tree: &SyntaxTree, text: &str) -> (r: Vec<AnalyzeError>)
        requires
            tree.wf(),
        ensures
            final(self).symbol_table.entries() == old(self).symbol_table.entries() + declarations(
                *tree,
                0,
                Seq::empty(),
            ),
            final(self).namespace_table.entries() == record_all(
                old(self).namespace_table.entries(),
                token_scopes(*tree, 0, Seq::empty()),
            ),
            error_views(r@) == subtree_errors(
                *tree,
                0,
                final(self).symbol_table.entries(),
                final(self).namespace_table.entries(),
                text@,
            ),
    {
        let mut symbol_table = SymbolTable::new();
        let mut namespace_table = NamespaceTable::new();
        std::mem::swap(&mut symbol_table, &mut self.symbol_table);
        std::mem::swap(&mut namespace_table, &mut self.namespace_table);

        let mut pass1 = VerylWalker::new(vec![CreateSymbolTable::new(symbol_table, namespace_table)]);
        let ghost start1 = pass1.handlers@[0]@;
        pass1.veryl(tree);
        let collector = pass1.handlers.pop().unwrap();
        proof {
            if tree.len() > 0 {
                lemma_collects_declarations(start1, *tree, 0);
            } else {
                assert(tree.traversal() =~= Seq::<Event>::empty());
                assert(start1.symbols + declarations(*tree, 0, Seq::empty()) =~= start1.symbols);
            }
        }
        let (symbol_table, namespace_table) = collector.into_tables();
        self.symbol_table = symbol_table;
        self.namespace_table = namespace_table;

        let mut pass2 = VerylWalker::new(
            vec![CheckModuleInstance::new(text, &self.symbol_table, &self.namespace_table)],
        );
        let ghost start2 = pass2.handlers@[0]@;
        pass2.veryl(tree);
        let instance_check = pass2.handlers.pop().unwrap();
        proof {
            if tree.len() > 0 {
                lemma_checks_instances(start2, *tree, 0);
            } else {
                assert(tree.traversal() =~= Seq::<Event>::empty());
            }
            assert(start2.errors + subtree_errors(*tree, 0, start2.symbols, start2.scopes, start2.text)
                =~= subtree_errors(*tree, 0, start2.symbols, start2.scopes, start2.text));
        }
        instance_check.into_errors()
    }

    /// The declaration that the identifier `token` refers to: its text,
    /// resolved from the scope recorded for the token; `None` when no scope
    /// was recorded for it or the name does not resolve.
    pub fn definition(&self, token: &Token) -> (r: Option<&Symbol>)
        ensures
            !records(self.namespace_table.entries(), token.id) ==> r is None,
            records(self.namespace_table.entries(), token.id) ==> match resolved(
                self.symbol_table.entries(),
                seq![token.text],
                recorded_scope(self.namespace_table.entries(), token.id),
            ) {
                Some(s) => r is Some && r->0@ == s,
                None => r is None,
            },
    {
        match self.namespace_table.get(token.id) {
            Some(namespace) => {
                let name = Name::Hierarchical(vec![token.text]);
                assert(name@ =~= seq![token.text]);
                self.symbol_table.get(&name, &namespace)
            },
            None => None,
        }
    }

    /// Analyses a new version of the file `file_path`: first forgets what its
    /// earlier version recorded, so that nothing resolves to stale symbols,
    /// then analyses `tree`.
    pub fn reanalyze(&mut self, file_path: PathId, tree: &SyntaxTree, text: &str) -> (r: Vec<AnalyzeError>)
        requires
            tree.wf(),
        ensures
            final(self).symbol_table.entries() == old(self).symbol_table.entries().filter(outside_file(file_path))
                + declarations(*tree, 0, Seq::empty()),
            final(self).namespace_table.entries() == record_all(
                old(self).namespace_table.entries().filter(recorded_outside(file_path)),
                token_scopes(*tree, 0, Seq::empty()),
            ),
            error_views(r@) == subtree_errors(
                *tree,
                0,
                final(self).symbol_table.entries(),
                final(self).namespace_table.entries(),
                text@,
            ),
    {
        self.drop_file(file_path);
        self.analyze(tree, text)
    }
}

} // verus!
