use vstd::prelude::*;
use vstd::string::StringExecFns;

use crate::text::texts;

verus! {

/// A titled section of structured text, with paragraphs and subsections.
#[derive(Debug)]
pub struct StructuredSection {
    pub heading: String,
    pub body: Vec<String>,
    pub children: Vec<StructuredSection>,
}

/// Structured text as the preview shows it.
#[derive(Debug)]
pub struct StructuredContent {
    pub title: String,
    pub summary: String,
    pub sections: Vec<StructuredSection>,
}

fn lines_of(a: &str, b: &str) -> (r: Vec<String>)
    ensures
        texts(r@) == seq![a@, b@],
{
    let mut v: Vec<String> = Vec::new();
    v.push(String::from_str(a));
    v.push(String::from_str(b));
    assert(texts(v@) =~= seq![a@, b@]);
    v
}

fn leaf(heading: &str, body: Vec<String>) -> (r: StructuredSection)
    ensures
        r.heading@ == heading@,
        r.body == body,
        r.children@.len() == 0,
{
    StructuredSection { heading: String::from_str(heading), body, children: Vec::new() }
}

impl StructuredContent {
    /// The built-in preview: the core flow overview and the mock-data notes.
    pub fn mock_payload() -> (r: StructuredContent)
        ensures
            r.title@ == "Telos Core Flow"@,
            r.summary@ == "A condensed view of how Telos processes intents from Beat to archival."@,
            r.sections@.len() == 2,
            r.sections@[0].heading@ == "Overview"@,
            texts(r.sections@[0].body@) == seq![
                "The Telos orchestrator coordinates Beats, ReAct agents, and storage to deliver operator workflows."@,
                "This preview payload mirrors the shape expected by the front-end when rendering structured text."@,
            ],
            r.sections@[0].children@.len() == 1,
            r.sections@[0].children@[0].heading@ == "Key Capabilities"@,
            texts(r.sections@[0].children@[0].body@) == seq![
                "Beat scheduling ensures inbox intents are processed on cadence."@,
                "Agent reasoning is captured with THINK, ACT, and OBSERVE messages for auditability."@,
            ],
            r.sections@[0].children@[0].children@.len() == 0,
            r.sections@[1].heading@ == "Mock Data"@,
            texts(r.sections@[1].body@) == seq![
                "Front-end developers can target this endpoint to validate typography, spacing, and nested section rendering without requiring live runs."@,
            ],
            r.sections@[1].children@.len() == 1,
            r.sections@[1].children@[0].heading@ == "Sample Checklist"@,
            texts(r.sections@[1].children@[0].body@) == seq![
                "Confirm summary banners render highlighted callouts."@,
                "Verify numbered steps appear with consistent indentation."@,
                "Ensure code blocks and inline emphasis use the design system tokens."@,
            ],
            r.sections@[1].children@[0].children@.len() == 0,
    {
        let capabilities = leaf(
            "Key Capabilities",
            lines_of(
                "Beat scheduling ensures inbox intents are processed on cadence.",
                "Agent reasoning is captured with THINK, ACT, and OBSERVE messages for auditability.",
            ),
        );
        let mut overview_children: Vec<StructuredSection> = Vec::new();
        overview_children.push(capabilities);
        let overview = StructuredSection {
            heading: String::from_str("Overview"),
            body: lines_of(
                "The Telos orchestrator coordinates Beats, ReAct agents, and storage to deliver operator workflows.",
                "This preview payload mirrors the shape expected by the front-end when rendering structured text.",
            ),
            children: overview_children,
        };
        let mut checklist_body = lines_of(
            "Confirm summary banners render highlighted callouts.",
            "Verify numbered steps appear with consistent indentation.",
        );
        let ghost first_two = checklist_body@;
        checklist_body.push(
            String::from_str("Ensure code blocks and inline emphasis use the design system tokens."),
        );
        assert(texts(checklist_body@) =~= texts(first_two).push(
            "Ensure code blocks and inline emphasis use the design system tokens."@,
        ));
        let checklist = leaf("Sample Checklist", checklist_body);
        let mut mock_children: Vec<StructuredSection> = Vec::new();
        mock_children.push(checklist);
        let mut mock_body: Vec<String> = Vec::new();
        mock_body.push(
            String::from_str(
                "Front-end developers can target this endpoint to validate typography, spacing, and nested section rendering without requiring live runs.",
            ),
        );
        let mock = StructuredSection {
            heading: String::from_str("Mock Data"),
            body: mock_body,
            children: mock_children,
        };
        let mut sections: Vec<StructuredSection> = Vec::new();
        sections.push(overview);
        sections.push(mock);
        let r = StructuredContent {
            title: String::from_str("Telos Core Flow"),
            summary: String::from_str(
                "A condensed view of how Telos processes intents from Beat to archival.",
            ),
            sections,
        };
        assert(texts(r.sections@[1].body@) =~= seq![
            "Front-end developers can target this endpoint to validate typography, spacing, and nested section rendering without requiring live runs."@,
        ]);
        assert(texts(r.sections@[1].children@[0].body@) =~= seq![
            "Confirm summary banners render highlighted callouts."@,
            "Verify numbered steps appear with consistent indentation."@,
            "Ensure code blocks and inline emphasis use the design system tokens."@,
        ]);
        r
    }
}

} // verus!
