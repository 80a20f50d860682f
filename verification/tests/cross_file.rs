use cargo_rustics::cross_file::{
    self_type_name, severity_for, severity_ladder, TRAIT_IMPL_FANOUT_ERROR,
    TRAIT_IMPL_FANOUT_WARNING,
};
use cargo_rustics::doc_comments::type_path_last_segment;
use cargo_rustics::items::TypeShape;
use cargo_rustics::report::Severity;

/// The library's view of a type written in Rust syntax.
fn shape(src: &str) -> TypeShape {
    let ty: syn::Type = syn::parse_str(src).unwrap();
    convert(&ty)
}

fn convert(ty: &syn::Type) -> TypeShape {
    match ty {
        syn::Type::Path(tp) => TypeShape::Path(
            tp.path
                .segments
                .iter()
                .map(|s| s.ident.to_string())
                .collect(),
        ),
        syn::Type::Reference(r) => TypeShape::Reference(Box::new(convert(&r.elem))),
        syn::Type::Paren(p) => TypeShape::Paren(Box::new(convert(&p.elem))),
        syn::Type::Group(g) => TypeShape::Group(Box::new(convert(&g.elem))),
        _ => TypeShape::Other,
    }
}

#[test]
fn cross_file_severity_below_warning_is_none() {
    assert!(severity_for(5).is_none());
}

#[test]
fn severity_at_warning_threshold_is_none() {
    assert!(severity_for(8).is_none());
}

#[test]
fn cross_file_severity_above_warning_is_warning() {
    let (s, t) = severity_for(9).unwrap();
    assert_eq!(s, Severity::Warning);
    assert_eq!(t, TRAIT_IMPL_FANOUT_WARNING);
}

#[test]
fn cross_file_severity_above_error_is_error() {
    let (s, t) = severity_for(20).unwrap();
    assert_eq!(s, Severity::Error);
    assert_eq!(t, TRAIT_IMPL_FANOUT_ERROR);
}

#[test]
fn mod_severity_below_warning_is_none() {
    assert!(severity_ladder(20, 20, 40).is_none());
}

#[test]
fn mod_severity_above_warning_is_warning() {
    let (s, t) = severity_ladder(21, 20, 40).unwrap();
    assert_eq!(s, Severity::Warning);
    assert_eq!(t, 20);
}

#[test]
fn mod_severity_above_error_is_error() {
    let (s, t) = severity_ladder(50, 20, 40).unwrap();
    assert_eq!(s, Severity::Error);
    assert_eq!(t, 40);
}

#[test]
fn severity_ladder_error_threshold_itself_is_a_warning() {
    assert_eq!(severity_ladder(40, 20, 40), Some((Severity::Warning, 20)));
    assert_eq!(severity_ladder(41, 20, 40), Some((Severity::Error, 40)));
}

#[test]
fn cross_file_type_name_extracts_path_tail() {
    assert_eq!(self_type_name(&shape("crate::module::Foo")).as_deref(), Some("Foo"));
}

#[test]
fn cross_file_type_name_unwraps_reference() {
    assert_eq!(self_type_name(&shape("&'a Foo")).as_deref(), Some("Foo"));
}

#[test]
fn cross_file_type_name_unwraps_paren_and_group() {
    assert_eq!(self_type_name(&shape("(Foo)")).as_deref(), Some("Foo"));
    let grouped = TypeShape::Group(Box::new(TypeShape::Path(vec!["Foo".to_string()])));
    assert_eq!(self_type_name(&grouped).as_deref(), Some("Foo"));
}

#[test]
fn cross_file_type_name_returns_none_for_tuple() {
    assert!(self_type_name(&shape("(u8, u16)")).is_none());
}

#[test]
fn trait_impl_fanout_type_name_extracts_path_tail() {
    assert_eq!(self_type_name(&shape("crate::module::Foo")).as_deref(), Some("Foo"));
}

#[test]
fn trait_impl_fanout_type_name_unwraps_reference() {
    assert_eq!(self_type_name(&shape("&'a Foo")).as_deref(), Some("Foo"));
}

#[test]
fn trait_impl_fanout_type_name_unwraps_paren_and_group() {
    assert_eq!(self_type_name(&shape("(Foo)")).as_deref(), Some("Foo"));
}

#[test]
fn trait_impl_fanout_type_name_returns_none_for_tuple() {
    assert!(self_type_name(&shape("(u8, u16)")).is_none());
}

#[test]
fn type_path_last_segment_returns_none_for_tuple_self() {
    assert!(type_path_last_segment(&shape("(u8, u8)")).is_none());
    assert_eq!(type_path_last_segment(&shape("Foo<u8>")).as_deref(), Some("Foo"));
}

#[test]
fn impl_self_name_does_not_look_through_groups() {
    let grouped = TypeShape::Group(Box::new(TypeShape::Path(vec!["Foo".to_string()])));
    assert!(type_path_last_segment(&grouped).is_none());
    assert_eq!(type_path_last_segment(&shape("&(a::Foo)")).as_deref(), Some("Foo"));
}
