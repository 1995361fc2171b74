//! The per-target rendering capability: every node of the tree can state
//! itself as a fragment of python-style or javascript-style source text.

use vstd::prelude::*;

use crate::ast::ApplicationParentType;
use crate::ast::ApplicationType;
use crate::ast::Dependency;
use crate::ast::FunctionParameter;
use crate::ast::FunctionSignature;
use crate::ast::js_param;
use crate::ast::js_type;
use crate::ast::py_children;
use crate::ast::py_param;
use crate::ast::py_sig;
use crate::ast::py_type;
use crate::ast::type_seq_view;
use crate::schema::MockConfig;
use crate::schema::MockConfigView;
use crate::schema::MockTest;
use crate::schema::js_mock_test;
use crate::schema::py_mock_test;

verus! {

/// Renders a node of the tree as a fragment of one target language's
/// source text.
pub trait LanguageInterpreter {
    /// The python-style text this node denotes.
    spec fn python_view(&self) -> Seq<char>;

    /// The javascript-style text this node denotes.
    spec fn javascript_view(&self) -> Seq<char>;

    fn as_python(&self) -> (r: String)
        ensures
            r@ == self.python_view(),
    ;

    fn as_javascript(&self) -> (r: String)
        ensures
            r@ == self.javascript_view(),
    ;
}

impl LanguageInterpreter for ApplicationType {
    open spec fn python_view(&self) -> Seq<char> {
        self.name@
    }

    open spec fn javascript_view(&self) -> Seq<char> {
        self.name@
    }

    fn as_python(&self) -> (r: String) {
        self.name.clone()
    }

    fn as_javascript(&self) -> (r: String) {
        self.name.clone()
    }
}

impl LanguageInterpreter for ApplicationParentType {
    open spec fn python_view(&self) -> Seq<char> {
        self.name@ + "["@ + py_children(type_seq_view(self.children@)) + "]"@
    }

    open spec fn javascript_view(&self) -> Seq<char> {
        self.name@
    }

    fn as_python(&self) -> (r: String) {
        self.to_python()
    }

    fn as_javascript(&self) -> (r: String) {
        self.name.clone()
    }
}

impl LanguageInterpreter for Dependency {
    open spec fn python_view(&self) -> Seq<char> {
        self.dependency_name@
    }

    open spec fn javascript_view(&self) -> Seq<char> {
        self.dependency_name@
    }

    fn as_python(&self) -> (r: String) {
        self.dependency_name.clone()
    }

    fn as_javascript(&self) -> (r: String) {
        self.dependency_name.clone()
    }
}

impl LanguageInterpreter for crate::ast::ParameterType {
    open spec fn python_view(&self) -> Seq<char> {
        py_type(self@)
    }

    open spec fn javascript_view(&self) -> Seq<char> {
        js_type(self@)
    }

    fn as_python(&self) -> (r: String) {
        self.to_python()
    }

    fn as_javascript(&self) -> (r: String) {
        self.to_javascript()
    }
}

impl LanguageInterpreter for FunctionParameter {
    open spec fn python_view(&self) -> Seq<char> {
        py_param(self@)
    }

    open spec fn javascript_view(&self) -> Seq<char> {
        js_param(self@)
    }

    fn as_python(&self) -> (r: String) {
        self.to_python()
    }

    fn as_javascript(&self) -> (r: String) {
        self.to_javascript()
    }
}

impl LanguageInterpreter for FunctionSignature {
    open spec fn python_view(&self) -> Seq<char> {
        py_sig(self@)
    }

    open spec fn javascript_view(&self) -> Seq<char> {
        self@.name
    }

    fn as_python(&self) -> (r: String) {
        self.to_python()
    }

    fn as_javascript(&self) -> (r: String) {
        self.to_javascript()
    }
}

/// Renders one fixture test of a mock as a test case of one target
/// language, given how the mock is referred to and which function the case
/// exercises.
pub trait LanguageInterpreterForUnitTest {
    /// The python-style text of the case.
    spec fn python_test_view(
        &self,
        mock_ref: Seq<char>,
        mock_config: MockConfigView,
        target_ref: Seq<char>,
    ) -> Seq<char>;

    /// The javascript-style text of the case.
    spec fn javascript_test_view(
        &self,
        mock_ref: Seq<char>,
        mock_config: MockConfigView,
        target_ref: Seq<char>,
    ) -> Seq<char>;

    fn as_python(&self, mock_ref: &str, mock_config: &MockConfig, target_ref: &str) -> (r: String)
        ensures
            r@ == self.python_test_view(mock_ref@, mock_config@, target_ref@),
    ;

    fn as_javascript(&self, mock_ref: &str, mock_config: &MockConfig, target_ref: &str) -> (r:
        String)
        ensures
            r@ == self.javascript_test_view(mock_ref@, mock_config@, target_ref@),
    ;
}

impl LanguageInterpreterForUnitTest for MockTest {
    open spec fn python_test_view(
        &self,
        mock_ref: Seq<char>,
        mock_config: MockConfigView,
        target_ref: Seq<char>,
    ) -> Seq<char> {
        py_mock_test(self@, mock_ref, mock_config, target_ref)
    }

    open spec fn javascript_test_view(
        &self,
        mock_ref: Seq<char>,
        mock_config: MockConfigView,
        target_ref: Seq<char>,
    ) -> Seq<char> {
        js_mock_test(self@)
    }

    fn as_python(&self, mock_ref: &str, mock_config: &MockConfig, target_ref: &str) -> (r:
        String) {
        self.to_python(mock_ref, mock_config, target_ref)
    }

    fn as_javascript(&self, mock_ref: &str, mock_config: &MockConfig, target_ref: &str) -> (r:
        String) {
        self.to_javascript(mock_ref, mock_config, target_ref)
    }
}

} // verus!
