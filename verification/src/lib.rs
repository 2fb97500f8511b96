use vstd::prelude::*;

pub mod assoc;
pub mod ast;
pub mod data_types;
pub mod diagnostics;
pub mod ir;
pub mod math;
pub mod output;
pub mod range;
pub mod text;

use crate::ast::lines::{delimiters_from, header_line_from, section_shapes};
use crate::ast::body::Body;
use crate::ast::parser::{body_read, body_scopes, header_read, is_span, parse_reports, sections_texts_ok, Parser};
use crate::ast::source::span;
use crate::ast::symbols::{Delimiter, DelimiterKind, SymbolTree};
use crate::diagnostics::types::{Diagnostic, ReportStage};
use crate::ir::builder::{body_diags, lemma_body_diags_stage, section_layout, IRBuilder};
use crate::output::event::{Event, TimelineMap};
use crate::ir::SectionIR;
use crate::output::FinalOutput;

verus! {

/// The version of the language this library reads.
pub const SUPPORTED_VERSION: &'static str = "=0.1.0-alpha";

/// The first `k` diagnostics are of the layout stage, the others of the
/// parsing stage.
pub open spec fn stages_split(diags: Seq<Diagnostic>, k: int) -> bool {
    &&& 0 <= k <= diags.len()
    &&& forall|i: int| 0 <= i < k ==> (#[trigger] diags[i]).stage == ReportStage::IRBuild
    &&& forall|i: int| k <= i < diags.len() ==> (#[trigger] diags[i]).stage == ReportStage::Parsing
}

/// The body that a document's lines after its first `---` line read as,
/// with the scopes of its sections and sub-sections recorded in `tree`, and
/// every lyric text it refers to stored there as the source text under its
/// symbol; a document without such a line has none.
pub open spec fn body_of(s: Seq<char>, tree: SymbolTree, body: Body) -> bool {
    &&& sections_texts_ok(tree, s, body.sections@)
    &&& match header_line_from(s, 0, s.len() as int) {
        Some(line) => {
            &&& body_read(s, body, line.next as int, s.len() as int)
            &&& body_scopes(tree, s, body, line.next as int, s.len() as int)
        },
        None => body.sections@.len() == 0,
    }
}

/// For each laid-out section, whether it merges with the one before and how
/// many sub-sections it has.
pub open spec fn section_ir_shapes(sections: Seq<SectionIR>) -> Seq<(bool, nat)> {
    sections.map_values(|x: SectionIR| (x.merge, x.items@.len()))
}

/// Runs the steps of the analysis of a document: parsing, then layout.
#[derive(Debug)]
pub struct MultiStepValidator {}

impl MultiStepValidator {
    pub fn init() -> (r: MultiStepValidator) {
        MultiStepValidator {}
    }

    /// Parses a document and lays out its body. The diagnostics of the layout
    /// come first (those of laying out the body the text reads as), then
    /// those of the parsing (all that parsing the text reports, line after
    /// line). The laid-out sections are those of that body, and the tree is
    /// the one parsing recorded. The delimiters are the first
    /// `---` line, then every `--`, `<<` and `++` line after it, in order; a
    /// document without a `---` line has no body.
    pub fn analyze(&mut self, source: &str) -> (r: FinalOutput)
        requires
            source@.len() <= usize::MAX / 8,
        ensures
            r.tree.wf(),
            exists|k: int, body: Body|
                #![trigger stages_split(r.diagnostics@, k), body_diags(r.tree, body.sections@, body.sections@.len() as int)]
                {
                    &&& stages_split(r.diagnostics@, k)
                    &&& r.diagnostics@.take(k) == body_diags(r.tree, body.sections@, body.sections@.len() as int)
                    &&& parse_reports(source@, r.diagnostics@.skip(k))
                    &&& body_of(source@, r.tree, body)
                    &&& r.ir.sections@.len() == body.sections@.len()
                    &&& forall|i: int|
                        0 <= i < body.sections@.len() ==> section_layout(#[trigger] r.ir.sections@[i], body.sections@[i])
                },
            r.timelines.view() == Map::<usize, Seq<(usize, Event)>>::empty(),
            header_read(source@, r.header),
            forall|k: Seq<char>| #[trigger] r.tree.spec_key_refs(k).len() == 0,
            forall|i: int|
                0 <= i < r.tree.spec_symbols().len() ==> is_span(source@, #[trigger] r.tree.spec_symbols()[i].range),
            match header_line_from(source@, 0, source@.len() as int) {
                Some(line) => {
                    &&& r.delimiters@ == seq![
                        Delimiter { kind: DelimiterKind::Header, range: span(source@, line.start as int, line.end as int) },
                    ] + delimiters_from(source@, line.next as int, source@.len() as int, source@.len() as int)
                    &&& section_ir_shapes(r.ir.sections@) == section_shapes(
                        source@,
                        line.next as int,
                        line.next as int,
                        false,
                        source@.len() as int,
                    )
                },
                None => r.delimiters@.len() == 0 && r.ir.sections@.len() == 0,
            },
    {
        let parser = Parser::new(source);
        let parsed = parser.parse();
        let tree = parsed.tree;
        let builder = IRBuilder::new(&tree);
        let ghost sections = parsed.body.sections@;
        let ghost pbody = parsed.body;
        let built = builder.build(parsed.body);
        proof {
            lemma_body_diags_stage(tree, sections, sections.len() as int);
            assert(built.reporter.spec_diagnostics() =~= body_diags(tree, sections, sections.len() as int));
        }
        let ghost k = built.reporter.spec_diagnostics().len() as int;
        let ghost pd = parsed.reporter.spec_diagnostics();
        let diagnostics = built.reporter.merge(parsed.reporter).into_diagnostics_vec();
        assert(stages_split(diagnostics@, k));
        assert(pd.skip(0) =~= pd);
        assert(diagnostics@.skip(k) =~= pd);
        let output = FinalOutput {
            tree,
            header: parsed.header,
            ir: built.body,
            diagnostics,
            timelines: TimelineMap::default(),
            delimiters: parsed.delimiters,
        };
        assert(stages_split(output.diagnostics@, k) && parse_reports(source@, output.diagnostics@.skip(k)));
        assert(output.diagnostics@.take(k) =~= body_diags(output.tree, pbody.sections@, pbody.sections@.len() as int));
        assert(body_of(source@, output.tree, pbody));
        assert(forall|i: int|
            0 <= i < pbody.sections@.len() ==> section_layout(#[trigger] output.ir.sections@[i], pbody.sections@[i]));
        assert(stages_split(output.diagnostics@, k));
        assert(section_ir_shapes(output.ir.sections@) =~= crate::ast::parser::section_shapes_of(sections));
        output
    }

    /// The analysis of a document (see `analyze`).
    pub fn process(&mut self, source: &str) -> (r: FinalOutput)
        requires
            source@.len() <= usize::MAX / 8,
        ensures
            r.tree.wf(),
            exists|k: int, body: Body|
                #![trigger stages_split(r.diagnostics@, k), body_diags(r.tree, body.sections@, body.sections@.len() as int)]
                {
                    &&& stages_split(r.diagnostics@, k)
                    &&& r.diagnostics@.take(k) == body_diags(r.tree, body.sections@, body.sections@.len() as int)
                    &&& parse_reports(source@, r.diagnostics@.skip(k))
                    &&& body_of(source@, r.tree, body)
                    &&& r.ir.sections@.len() == body.sections@.len()
                    &&& forall|i: int|
                        0 <= i < body.sections@.len() ==> section_layout(#[trigger] r.ir.sections@[i], body.sections@[i])
                },
            r.timelines.view() == Map::<usize, Seq<(usize, Event)>>::empty(),
            header_read(source@, r.header),
            forall|k: Seq<char>| #[trigger] r.tree.spec_key_refs(k).len() == 0,
            forall|i: int|
                0 <= i < r.tree.spec_symbols().len() ==> is_span(source@, #[trigger] r.tree.spec_symbols()[i].range),
            match header_line_from(source@, 0, source@.len() as int) {
                Some(line) => {
                    &&& r.delimiters@ == seq![
                        Delimiter { kind: DelimiterKind::Header, range: span(source@, line.start as int, line.end as int) },
                    ] + delimiters_from(source@, line.next as int, source@.len() as int, source@.len() as int)
                    &&& section_ir_shapes(r.ir.sections@) == section_shapes(
                        source@,
                        line.next as int,
                        line.next as int,
                        false,
                        source@.len() as int,
                    )
                },
                None => r.delimiters@.len() == 0 && r.ir.sections@.len() == 0,
            },
    {
        self.analyze(source)
    }
}

} // verus!
