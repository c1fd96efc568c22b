use mest::annotations::{build_annotations, lsp_to_offset, offset_to_lsp, BindingKind};
use mest::hir::Type;

#[test]
fn test_annotations_let_var_binding() {
    let source = "let x = 1 in x";
    let map = build_annotations(source).unwrap();
    let x_binding_offset = source.find("x").unwrap();
    assert!(
        map.spans.contains_key(&x_binding_offset),
        "expected annotation for binding 'x' at offset {}",
        x_binding_offset
    );
    let entry = map.spans.get(&x_binding_offset).unwrap();
    assert_eq!(entry.kind, BindingKind::Let);
    assert_eq!(entry.ty, Type::Int);
}

#[test]
fn test_annotations_let_tuple_binding() {
    let source = "let (a, b) = (1, true) in b";
    let map = build_annotations(source).unwrap();
    let a_offset = source.find('a').unwrap();
    assert!(
        map.spans.contains_key(&a_offset),
        "expected annotation for binding 'a' at offset {}",
        a_offset
    );
    let a_entry = map.spans.get(&a_offset).unwrap();
    assert_eq!(a_entry.kind, BindingKind::Let);
    assert_eq!(a_entry.ty, Type::Int);
    let eq_pos = source.find('=').unwrap();
    let binding_b_offset = source[..eq_pos].rfind('b').unwrap();
    assert!(
        map.spans.contains_key(&binding_b_offset),
        "expected annotation for binding 'b' at offset {}",
        binding_b_offset
    );
    let b_entry = map.spans.get(&binding_b_offset).unwrap();
    assert_eq!(b_entry.kind, BindingKind::Let);
    assert_eq!(b_entry.ty, Type::Bool);
}

#[test]
fn test_annotations_let_and_bindings() {
    let source = "let a = 1 and b = true in b";
    let map = build_annotations(source).unwrap();
    let a_offset = source.find('a').unwrap();
    assert_eq!(map.spans.get(&a_offset).unwrap().kind, BindingKind::Let);
    assert_eq!(map.spans.get(&a_offset).unwrap().ty, Type::Int);
    let eq_first = source.find('=').unwrap();
    let eq_second = source[eq_first + 1..].find('=').unwrap() + eq_first + 1;
    let b_binding_offset = source[..eq_second].rfind('b').unwrap();
    assert_eq!(map.spans.get(&b_binding_offset).unwrap().ty, Type::Bool);
}

#[test]
fn annotations_of_lambda_parameter() {
    let source = "|x| x + 1";
    let map = build_annotations(source).unwrap();
    let entry = map.spans.get(&1).unwrap();
    assert_eq!(entry.kind, BindingKind::Param);
    assert_eq!(entry.ty, Type::Int);
    assert_eq!(entry.end, 2);
}

#[test]
fn find_entry_picks_the_narrowest() {
    let source = "let x = 1 in x";
    let map = build_annotations(source).unwrap();
    let (start, end, ty, kind) = map.find_entry(13).unwrap();
    assert_eq!((start, end), (13, 14));
    assert_eq!(ty, Type::Int);
    assert_eq!(kind, BindingKind::NotBinding);
    let (start, _, _, kind) = map.find_entry(4).unwrap();
    assert_eq!(start, 4);
    assert_eq!(kind, BindingKind::Let);
    let (start, end, _, _) = map.find_entry(3).unwrap();
    assert_eq!((start, end), (0, 14));
    assert!(map.find_entry(20).is_none());
}

#[test]
fn no_annotations_for_bad_source() {
    assert!(build_annotations("let x = in").is_none());
    assert!(build_annotations("1 @ 2").is_none());
}

#[test]
fn positions_and_offsets() {
    let text = "ab\ncd\nef";
    assert_eq!(offset_to_lsp(text, 4), (1, 1));
    assert_eq!(offset_to_lsp(text, 0), (0, 0));
    assert_eq!(offset_to_lsp(text, 8), (2, 2));
    assert_eq!(lsp_to_offset(text, 1, 1), Some(4));
    assert_eq!(lsp_to_offset(text, 2, 0), Some(6));
    assert_eq!(lsp_to_offset(text, 3, 0), None);
    assert_eq!(lsp_to_offset(text, 0, 7), Some(7));
}

#[test]
fn position_round_trip() {
    let text = "let x = 1\nin\n  x";
    for offset in 0..=text.len() {
        let (line, character) = offset_to_lsp(text, offset);
        assert_eq!(lsp_to_offset(text, line, character), Some(offset));
    }
}
