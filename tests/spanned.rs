use kona_diagnostic::ast::Spanned;
use kona_diagnostic::span::Span;

#[derive(Debug, PartialEq, Eq)]
pub struct Node {
    span: Span,
}

impl Spanned for Node {
    fn span(&self) -> Span {
        self.span
    }
}

#[test]
fn has_span() {
    let node = Node { span: Span::dummy() };
    assert_eq!(node.span(), Span::dummy());
}
