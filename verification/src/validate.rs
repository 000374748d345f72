//! Whole-workspace validation: load, then resolve, then summarize.  A
//! manifest failure or any fragment error makes the result invalid with the
//! causes listed; an indexed model is checked by the resolver and its
//! collection counts are reported.

use vstd::prelude::*;
use vstd::string::StringExecFns;
use crate::file::SourceFile;
use crate::model::{spec_first_dup, Model};
use crate::parser::{
    frag_msgs, spec_errs_upto, spec_kept_paths, spec_kept_upto, spec_manifest_error_msg,
    spec_parse_error_msg, ManifestError, ParseError, Parser,
};
use crate::resolver::{spec_resolve_errors, Resolver};
use crate::strutil::{spec_digits, usize_to_string};
use crate::types::{Component, Container, Person, SoftwareSystem};
use crate::yaml::Yaml;

verus! {

/// One finding of workspace validation, with an optional source position.
#[derive(Debug)]
pub struct ValidationError {
    pub message: String,
    pub file: Option<String>,
    pub line: Option<usize>,
}

/// The display form: `file:line: message`, `file: message`, or the bare
/// message, depending on what is known.
pub open spec fn spec_validation_error_display(e: ValidationError) -> Seq<char> {
    match e.file {
        Some(f) => match e.line {
            Some(l) => f@ + seq![':'] + spec_digits(l as int) + seq![':', ' '] + e.message@,
            None => f@ + seq![':', ' '] + e.message@,
        },
        None => e.message@,
    }
}

impl ValidationError {
    /// Renders the finding for people.
    pub fn display(&self) -> (r: String)
        ensures
            r@ == spec_validation_error_display(*self),
    {
        match &self.file {
            Some(f) => {
                let mut s = f.clone();
                match &self.line {
                    Some(l) => {
                        s.append(":");
                        let line = usize_to_string(*l);
                        s.append(line.as_str());
                        s.append(": ");
                        s.append(self.message.as_str());
                        proof {
                            reveal_strlit(":");
                            reveal_strlit(": ");
                            assert(s@ =~= spec_validation_error_display(*self));
                        }
                        s
                    },
                    None => {
                        s.append(": ");
                        s.append(self.message.as_str());
                        proof {
                            reveal_strlit(": ");
                            assert(s@ =~= spec_validation_error_display(*self));
                        }
                        s
                    },
                }
            },
            None => self.message.clone(),
        }
    }
}

/// Collection counts of a loaded model.
#[derive(Debug, Clone, Copy, PartialEq, Eq, Structural)]
pub struct ValidationStats {
    pub persons: usize,
    pub systems: usize,
    pub containers: usize,
    pub components: usize,
    pub relationships: usize,
    pub flows: usize,
    pub deployments: usize,
}

impl Default for ValidationStats {
    fn default() -> (r: ValidationStats)
        ensures
            r.persons == 0,
            r.systems == 0,
            r.containers == 0,
            r.components == 0,
            r.relationships == 0,
            r.flows == 0,
            r.deployments == 0,
    {
        ValidationStats {
            persons: 0,
            systems: 0,
            containers: 0,
            components: 0,
            relationships: 0,
            flows: 0,
            deployments: 0,
        }
    }
}

/// The outcome of validating a workspace.
#[derive(Debug)]
pub struct ValidationResult {
    pub valid: bool,
    pub errors: Vec<ValidationError>,
    pub warnings: Vec<ValidationError>,
    pub stats: ValidationStats,
}

/// The messages of a list of findings, in order.
pub open spec fn validation_msgs(es: Seq<ValidationError>) -> Seq<Seq<char>> {
    es.map_values(|e: ValidationError| e.message@)
}

/// All findings carry no source position.
pub open spec fn validation_no_pos(es: Seq<ValidationError>) -> bool {
    forall|i: int| 0 <= i < es.len() ==> (#[trigger] es[i]).file is None && es[i].line is None
}

/// Zeroed statistics.
pub open spec fn spec_zero_stats(s: ValidationStats) -> bool {
    s.persons == 0 && s.systems == 0 && s.containers == 0 && s.components == 0 && s.relationships
        == 0 && s.flows == 0 && s.deployments == 0
}

/// Loads the workspace from the given manifest document and files and
/// validates every reference of the resulting model.  The result is invalid
/// exactly when the manifest is bad, when any fragment error occurred, when
/// two elements share a full path, or when the resolver found anything.
pub fn validate_workspace(
    root_dir: &str,
    mod_doc: &Result<Yaml, String>,
    files: &Vec<SourceFile>,
) -> (r: ValidationResult)
    ensures
        r.warnings@.len() == 0,
        validation_no_pos(r.errors@),
        r.valid == (r.errors@.len() == 0),
        ({
            let errs = spec_errs_upto(root_dir@, files@, files@.len() as int);
            let kept = spec_kept_upto(root_dir@, files@, files@.len() as int);
            let manifest_ok = mod_doc matches Ok(d) && (crate::codec::dec_mod_file(d@) matches Some(
                mv,
            ) && mv.version.len() > 0 && mv.name.len() > 0);
            &&& !manifest_ok ==> validation_msgs(r.errors@).len() == 1 && spec_zero_stats(r.stats)
            &&& manifest_ok ==> {
                if errs.len() > 0 {
                    &&& validation_msgs(r.errors@) == seq![
                        spec_parse_error_msg(ParseError::Fragments { count: errs.len() as usize }),
                    ] + errs
                    &&& spec_zero_stats(r.stats)
                } else if spec_first_dup(spec_kept_paths(kept)) is Some {
                    &&& validation_msgs(r.errors@) == seq![
                        "duplicate element ID: "@ + spec_first_dup(
                            spec_kept_paths(kept),
                        ).unwrap(),
                    ]
                    &&& spec_zero_stats(r.stats)
                } else {
                    exists|m: Model|
                        {
                            &&& #[trigger] m.inv()
                            &&& m.persons@.map_values(|x: Person| x@) == kept.persons
                            &&& m.systems@.map_values(|x: SoftwareSystem| x@) == kept.systems
                            &&& m.containers@.map_values(|x: Container| x@) == kept.containers
                            &&& m.components@.map_values(|x: Component| x@) == kept.components
                            &&& m.relationships@.map_values(|x: crate::types::Relationship| x@)
                                == kept.relationships
                            &&& m.flows@.map_values(|x: crate::types::Flow| x@) == kept.flows
                            &&& m.deployments@.map_values(|x: crate::types::Deployment| x@)
                                == kept.deployments
                            &&& validation_msgs(r.errors@) == spec_resolve_errors(m).map_values(
                                |p: (Seq<char>, Seq<char>)| p.1,
                            )
                            &&& r.stats.persons == m.persons@.len()
                            &&& r.stats.systems == m.systems@.len()
                            &&& r.stats.containers == m.containers@.len()
                            &&& r.stats.components == m.components@.len()
                            &&& r.stats.relationships == m.relationships@.len()
                            &&& r.stats.flows == m.flows@.len()
                            &&& r.stats.deployments == m.deployments@.len()
                        }
                }
            }
        }),
{
    let mut parser = Parser::new(root_dir);
    match parser.load_mod_file(mod_doc) {
        Err(e) => {
            let mut errors: Vec<ValidationError> = Vec::new();
            errors.push(ValidationError { message: e.message(), file: None, line: None });
            return ValidationResult {
                valid: false,
                errors,
                warnings: Vec::new(),
                stats: ValidationStats::default(),
            };
        },
        Ok(()) => {},
    }
    let model = match parser.parse(files) {
        Err(e) => {
            let ghost root = root_dir@;
            let mut errors: Vec<ValidationError> = Vec::new();
            errors.push(ValidationError { message: e.message(), file: None, line: None });
            let mut i: usize = 0;
            let n = parser.errors.len();
            while i < n
                invariant
                    i <= n,
                    n == parser.errors@.len(),
                    errors@.len() == i + 1,
                    validation_msgs(errors@) == seq![spec_parse_error_msg(e)] + frag_msgs(
                        parser.errors@,
                    ).take(i as int),
                    validation_no_pos(errors@),
                decreases n - i,
            {
                let ghost prev = errors@;
                errors.push(
                    ValidationError {
                        message: parser.errors[i].message.clone(),
                        file: None,
                        line: None,
                    },
                );
                proof {
                    crate::strutil::lemma_map_push(
                        prev,
                        errors@[errors@.len() - 1],
                        |x: ValidationError| x.message@,
                    );
                    assert(frag_msgs(parser.errors@)[i as int] == parser.errors@[i as int].message@);
                    assert(validation_msgs(errors@) =~= seq![spec_parse_error_msg(e)]
                        + frag_msgs(parser.errors@).take(i + 1));
                }
                i += 1;
            }
            proof {
                assert(frag_msgs(parser.errors@).take(frag_msgs(parser.errors@).len() as int)
                    =~= frag_msgs(parser.errors@));
            }
            match e {
                ParseError::Fragments { count } => {},
                ParseError::Duplicate(_) => {
                    proof {
                        assert(frag_msgs(parser.errors@) =~= Seq::<Seq<char>>::empty());
                        assert(validation_msgs(errors@) =~= seq![spec_parse_error_msg(e)]);
                    }
                },
                ParseError::NotLoaded => {
                    proof {
                        assert(false);
                    }
                },
            }
            return ValidationResult {
                valid: false,
                errors,
                warnings: Vec::new(),
                stats: ValidationStats::default(),
            };
        },
        Ok(m) => m,
    };

    let mut resolver = Resolver::new(&model);
    let resolution_errors = resolver.resolve();
    let ghost expected = spec_resolve_errors(model);
    let mut errors: Vec<ValidationError> = Vec::new();
    let n = resolution_errors.len();
    let mut i: usize = 0;
    while i < n
        invariant
            i <= n,
            n == resolution_errors@.len(),
            crate::resolver::errors_match(resolution_errors@, expected),
            errors@.len() == i,
            validation_msgs(errors@) == expected.map_values(
                |p: (Seq<char>, Seq<char>)| p.1,
            ).take(i as int),
            validation_no_pos(errors@),
        decreases n - i,
    {
        let ghost prev = errors@;
        errors.push(
            ValidationError {
                message: resolution_errors[i].message.clone(),
                file: None,
                line: None,
            },
        );
        proof {
            crate::strutil::lemma_map_push(
                prev,
                errors@[errors@.len() - 1],
                |x: ValidationError| x.message@,
            );
            assert(resolution_errors@[i as int].message@ == expected[i as int].1);
            assert(validation_msgs(errors@) =~= expected.map_values(
                |p: (Seq<char>, Seq<char>)| p.1,
            ).take(i + 1));
        }
        i += 1;
    }
    proof {
        assert(expected.map_values(|p: (Seq<char>, Seq<char>)| p.1).take(expected.len() as int)
            =~= expected.map_values(|p: (Seq<char>, Seq<char>)| p.1));
    }

    let stats = ValidationStats {
        persons: model.persons.len(),
        systems: model.systems.len(),
        containers: model.containers.len(),
        components: model.components.len(),
        relationships: model.relationships.len(),
        flows: model.flows.len(),
        deployments: model.deployments.len(),
    };
    let valid = errors.len() == 0;
    let r = ValidationResult { valid, errors, warnings: Vec::new(), stats };
    proof {
        assert(expected.len() == expected.map_values(|p: (Seq<char>, Seq<char>)| p.1).len());
    }
    r
}

} // verus!
