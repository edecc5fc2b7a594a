//! The core pipeline: compile a spec against a registry, then render the plan.
use vstd::prelude::*;
use crate::compile::{compile_model, compile_report_spec, CompileError, CompileErrorView};
use crate::registry::{RegistryView, SchemaRegistry};
use crate::render::{render_model, render_sql, RenderError, RenderErrorView};
use crate::report_spec::{ReportSpec, SpecView};

verus! {

/// Why the pipeline produced no SQL.
#[derive(Debug, Clone)]
pub enum PipelineError {
    Compile(CompileError),
    Render(RenderError),
}

pub enum PipelineErrorView {
    Compile(CompileErrorView),
    Render(RenderErrorView),
}

impl View for PipelineError {
    type V = PipelineErrorView;

    open spec fn view(&self) -> PipelineErrorView {
        match self {
            PipelineError::Compile(e) => PipelineErrorView::Compile(e@),
            PipelineError::Render(e) => PipelineErrorView::Render(e@),
        }
    }
}

/// Compile, then render.
pub open spec fn pipeline_model(reg: RegistryView, spec: SpecView) -> Result<Seq<char>, PipelineErrorView> {
    match compile_model(reg, spec) {
        Err(e) => Err(PipelineErrorView::Compile(e)),
        Ok(p) => match render_model(p) {
            Err(e) => Err(PipelineErrorView::Render(e)),
            Ok(sql) => Ok(sql),
        },
    }
}

/// The SQL text of a spec against a registry.
pub fn compile_and_render(reg: &SchemaRegistry, spec: &ReportSpec) -> (r: Result<String, PipelineError>)
    ensures
        match r {
            Ok(sql) => pipeline_model(reg@, spec@) == Ok::<Seq<char>, PipelineErrorView>(sql@),
            Err(e) => pipeline_model(reg@, spec@) == Err::<Seq<char>, PipelineErrorView>(e@),
        },
{
    let plan = match compile_report_spec(reg, spec) {
        Ok(p) => p,
        Err(e) => {
            return Err(PipelineError::Compile(e));
        },
    };
    match render_sql(&plan) {
        Ok(sql) => Ok(sql),
        Err(e) => Err(PipelineError::Render(e)),
    }
}

} // verus!
