use fully_pub::error::RewriteError;
use fully_pub::marker::{attr_is_marker, classify_marker, is_exclude, marker_argument};
use fully_pub::model::{AttrArgs, Attribute, Fields, ForeignItem, ImplItem, Item, Member, Visibility};
use fully_pub::rewrite::{explore_item, make_fully_pub, make_pub};

fn marker(arg: &str, origin: u64) -> Attribute {
    Attribute { path: "fully_pub".to_string(), args: AttrArgs::List(arg.to_string()), origin }
}

fn exclude(origin: u64) -> Attribute {
    marker("exclude", origin)
}

fn other(path: &str, origin: u64) -> Attribute {
    Attribute { path: path.to_string(), args: AttrArgs::Path, origin }
}

fn private(attrs: Vec<Attribute>) -> Member {
    Member { vis: Visibility::Private, attrs }
}

fn public(attrs: Vec<Attribute>) -> Member {
    Member { vis: Visibility::Public, attrs }
}

#[test]
fn struct_with_one_excluded_field() {
    let mut item = Item::Struct {
        node: private(vec![]),
        fields: Fields::Named(vec![private(vec![]), private(vec![exclude(1)])]),
    };
    assert_eq!(explore_item(&mut item, false), Ok(()));
    assert_eq!(
        item,
        Item::Struct {
            node: public(vec![]),
            fields: Fields::Named(vec![public(vec![]), private(vec![])]),
        }
    );
}

#[test]
fn inherent_impl_with_one_excluded_function() {
    let mut item = Item::Impl {
        attrs: vec![],
        of_trait: false,
        items: vec![
            ImplItem::Fn(private(vec![])),
            ImplItem::Fn(private(vec![])),
            ImplItem::Fn(private(vec![exclude(7)])),
        ],
    };
    assert_eq!(explore_item(&mut item, false), Ok(()));
    assert_eq!(
        item,
        Item::Impl {
            attrs: vec![],
            of_trait: false,
            items: vec![
                ImplItem::Fn(public(vec![])),
                ImplItem::Fn(public(vec![])),
                ImplItem::Fn(private(vec![])),
            ],
        }
    );
}

#[test]
fn invalid_configuration_argument() {
    let mut item = Item::Fn(private(vec![]));
    let r = make_fully_pub(Some("deep".to_string()), &mut item);
    assert_eq!(r, Err(RewriteError::InvalidConfigurationArgument { arg: "deep".to_string() }));
    assert_eq!(item, Item::Fn(private(vec![])));
}

#[test]
fn recursive_configuration_argument() {
    let mut item = Item::Mod {
        node: private(vec![]),
        content: Some(vec![Item::Fn(private(vec![]))]),
    };
    assert_eq!(make_fully_pub(Some("recursive".to_string()), &mut item), Ok(()));
    assert_eq!(
        item,
        Item::Mod { node: public(vec![]), content: Some(vec![Item::Fn(public(vec![]))]) }
    );
}

#[test]
fn no_configuration_argument_is_shallow() {
    let mut item = Item::Mod {
        node: private(vec![]),
        content: Some(vec![Item::Fn(private(vec![exclude(1)]))]),
    };
    assert_eq!(make_fully_pub(None, &mut item), Ok(()));
    assert_eq!(
        item,
        Item::Mod {
            node: public(vec![]),
            content: Some(vec![Item::Fn(private(vec![exclude(1)]))]),
        }
    );
}

#[test]
fn plain_items_become_public() {
    let kinds: Vec<fn(Member) -> Item> = vec![
        Item::Const,
        Item::Enum,
        Item::Fn,
        Item::Static,
        Item::Trait,
        Item::TraitAlias,
        Item::Type,
    ];
    for kind in kinds {
        let mut item = kind(private(vec![other("inline", 3)]));
        assert_eq!(explore_item(&mut item, false), Ok(()));
        assert_eq!(item, kind(public(vec![other("inline", 3)])));
    }
}

#[test]
fn already_public_stays_public() {
    let mut item = Item::Fn(public(vec![]));
    assert_eq!(explore_item(&mut item, true), Ok(()));
    assert_eq!(item, Item::Fn(public(vec![])));
}

#[test]
fn excluded_item_keeps_visibility_and_loses_marker() {
    let mut item = Item::Const(private(vec![other("doc", 1), exclude(2), other("cfg", 3)]));
    assert_eq!(explore_item(&mut item, false), Ok(()));
    assert_eq!(item, Item::Const(private(vec![other("doc", 1), other("cfg", 3)])));
}

#[test]
fn excluded_public_item_stays_public() {
    let mut item = Item::Static(public(vec![exclude(2)]));
    assert_eq!(explore_item(&mut item, false), Ok(()));
    assert_eq!(item, Item::Static(public(vec![])));
}

#[test]
fn duplicate_marker_fails() {
    let mut item = Item::Fn(private(vec![exclude(1), other("inline", 2), exclude(3)]));
    assert_eq!(explore_item(&mut item, false), Err(RewriteError::DuplicateMarker { origin: 3 }));
}

#[test]
fn duplicate_marker_on_field_fails() {
    let mut item = Item::Union {
        node: private(vec![]),
        fields: vec![private(vec![]), private(vec![exclude(4), exclude(5)])],
    };
    assert_eq!(explore_item(&mut item, false), Err(RewriteError::DuplicateMarker { origin: 5 }));
}

#[test]
fn unknown_marker_argument_fails() {
    let mut item = Item::Type(private(vec![marker("keep", 9)]));
    assert_eq!(
        explore_item(&mut item, false),
        Err(RewriteError::UnknownMarkerArgument { origin: 9, arg: "keep".to_string() })
    );
}

#[test]
fn unknown_argument_after_valid_marker_fails() {
    let mut item = Item::Type(private(vec![exclude(1), marker("skip", 2)]));
    assert_eq!(
        explore_item(&mut item, false),
        Err(RewriteError::UnknownMarkerArgument { origin: 2, arg: "skip".to_string() })
    );
}

#[test]
fn raw_identifier_is_not_the_keyword() {
    let mut item = Item::Type(private(vec![marker("r#exclude", 4)]));
    assert_eq!(
        explore_item(&mut item, false),
        Err(RewriteError::UnknownMarkerArgument { origin: 4, arg: "r#exclude".to_string() })
    );
}

#[test]
fn malformed_marker_fails() {
    let bare = Attribute { path: "fully_pub".to_string(), args: AttrArgs::Path, origin: 1 };
    let mut item = Item::Fn(private(vec![bare]));
    assert_eq!(explore_item(&mut item, false), Err(RewriteError::MalformedMarker { origin: 1 }));

    let mut item = Item::Fn(private(vec![marker("exclude, again", 2)]));
    assert_eq!(explore_item(&mut item, false), Err(RewriteError::MalformedMarker { origin: 2 }));

    let mut item = Item::Fn(private(vec![marker("self", 3)]));
    assert_eq!(explore_item(&mut item, false), Err(RewriteError::MalformedMarker { origin: 3 }));
}

#[test]
fn marker_argument_is_read_by_syn() {
    assert_eq!(marker_argument(&marker("exclude", 0)), Some("exclude".to_string()));
    assert_eq!(marker_argument(&marker("  exclude\n", 0)), Some("exclude".to_string()));
    assert_eq!(marker_argument(&marker("", 0)), None);
    assert_eq!(marker_argument(&marker("a b", 0)), None);
    assert_eq!(marker_argument(&other("fully_pub", 0)), None);
}

#[test]
fn marker_path_must_be_the_name_alone() {
    assert!(attr_is_marker(&exclude(0)));
    assert!(!attr_is_marker(&Attribute {
        path: "::fully_pub".to_string(),
        args: AttrArgs::List("exclude".to_string()),
        origin: 0,
    }));
    assert!(!attr_is_marker(&Attribute {
        path: "fully_pub::fully_pub".to_string(),
        args: AttrArgs::List("exclude".to_string()),
        origin: 0,
    }));
}

#[test]
fn scanner_keeps_order_of_other_attributes() {
    let mut attrs = vec![other("a", 1), exclude(2), other("b", 3), other("c", 4)];
    assert_eq!(is_exclude(&mut attrs), Ok(true));
    assert_eq!(attrs, vec![other("a", 1), other("b", 3), other("c", 4)]);

    let mut attrs = vec![other("a", 1)];
    assert_eq!(is_exclude(&mut attrs), Ok(false));
    assert_eq!(attrs, vec![other("a", 1)]);

    let mut attrs: Vec<Attribute> = vec![];
    assert_eq!(is_exclude(&mut attrs), Ok(false));
    assert!(attrs.is_empty());
}

#[test]
fn make_pub_sets_public() {
    let mut vis = Visibility::Private;
    make_pub(&mut vis);
    assert_eq!(vis, Visibility::Public);
}

#[test]
fn shallow_module_leaves_body_untouched() {
    let body = || {
        vec![
            Item::Fn(private(vec![other("inline", 1)])),
            Item::Struct { node: private(vec![exclude(2)]), fields: Fields::Unit },
            Item::Mod { node: private(vec![]), content: Some(vec![Item::Const(private(vec![]))]) },
        ]
    };
    let mut item = Item::Mod { node: private(vec![]), content: Some(body()) };
    assert_eq!(explore_item(&mut item, false), Ok(()));
    assert_eq!(item, Item::Mod { node: public(vec![]), content: Some(body()) });
}

#[test]
fn recursive_module_reaches_every_depth() {
    let mut item = Item::Mod {
        node: private(vec![]),
        content: Some(vec![
            Item::Fn(private(vec![])),
            Item::Mod {
                node: private(vec![]),
                content: Some(vec![
                    Item::Fn(private(vec![])),
                    Item::Fn(private(vec![exclude(1)])),
                    Item::Struct {
                        node: private(vec![]),
                        fields: Fields::Unnamed(vec![private(vec![exclude(2)]), private(vec![])]),
                    },
                ]),
            },
        ]),
    };
    assert_eq!(explore_item(&mut item, true), Ok(()));
    assert_eq!(
        item,
        Item::Mod {
            node: public(vec![]),
            content: Some(vec![
                Item::Fn(public(vec![])),
                Item::Mod {
                    node: public(vec![]),
                    content: Some(vec![
                        Item::Fn(public(vec![])),
                        Item::Fn(private(vec![])),
                        Item::Struct {
                            node: public(vec![]),
                            fields: Fields::Unnamed(vec![private(vec![]), public(vec![])]),
                        },
                    ]),
                },
            ]),
        }
    );
}

#[test]
fn recursive_error_deep_inside_aborts() {
    let mut item = Item::Mod {
        node: private(vec![]),
        content: Some(vec![
            Item::Fn(private(vec![marker("bogus", 1)])),
            Item::Fn(private(vec![exclude(2), exclude(3)])),
        ]),
    };
    assert_eq!(
        explore_item(&mut item, true),
        Err(RewriteError::UnknownMarkerArgument { origin: 1, arg: "bogus".to_string() })
    );
}

#[test]
fn excluded_module_body_is_not_visited() {
    let mut item = Item::Mod {
        node: private(vec![exclude(1)]),
        content: Some(vec![Item::Fn(private(vec![exclude(2), exclude(3)]))]),
    };
    assert_eq!(explore_item(&mut item, true), Ok(()));
    assert_eq!(
        item,
        Item::Mod {
            node: private(vec![]),
            content: Some(vec![Item::Fn(private(vec![exclude(2), exclude(3)]))]),
        }
    );
}

#[test]
fn module_without_body_is_untouched() {
    let mut item = Item::Mod { node: private(vec![exclude(1), exclude(2)]), content: None };
    assert_eq!(explore_item(&mut item, true), Ok(()));
    assert_eq!(item, Item::Mod { node: private(vec![exclude(1), exclude(2)]), content: None });
}

#[test]
fn trait_impl_is_untouched() {
    let make = || Item::Impl {
        attrs: vec![exclude(1), exclude(2)],
        of_trait: true,
        items: vec![ImplItem::Fn(private(vec![marker("bogus", 3)])), ImplItem::Macro],
    };
    let mut item = make();
    assert_eq!(explore_item(&mut item, true), Ok(()));
    assert_eq!(item, make());
}

#[test]
fn excluded_impl_block_is_not_visited() {
    let mut item = Item::Impl {
        attrs: vec![exclude(1)],
        of_trait: false,
        items: vec![ImplItem::Const(private(vec![]))],
    };
    assert_eq!(explore_item(&mut item, false), Ok(()));
    assert_eq!(
        item,
        Item::Impl { attrs: vec![], of_trait: false, items: vec![ImplItem::Const(private(vec![]))] }
    );
}

#[test]
fn foreign_block_items_become_public() {
    let mut item = Item::ForeignMod {
        attrs: vec![other("link", 1)],
        items: vec![
            ForeignItem::Fn(private(vec![])),
            ForeignItem::Static(private(vec![exclude(2)])),
            ForeignItem::Type(private(vec![])),
            ForeignItem::Macro,
            ForeignItem::Verbatim,
        ],
    };
    assert_eq!(explore_item(&mut item, false), Ok(()));
    assert_eq!(
        item,
        Item::ForeignMod {
            attrs: vec![other("link", 1)],
            items: vec![
                ForeignItem::Fn(public(vec![])),
                ForeignItem::Static(private(vec![])),
                ForeignItem::Type(public(vec![])),
                ForeignItem::Macro,
                ForeignItem::Verbatim,
            ],
        }
    );
}

#[test]
fn unit_struct_only_gets_struct_change() {
    let mut item = Item::Struct { node: private(vec![]), fields: Fields::Unit };
    assert_eq!(explore_item(&mut item, false), Ok(()));
    assert_eq!(item, Item::Struct { node: public(vec![]), fields: Fields::Unit });
}

#[test]
fn excluded_struct_fields_are_not_visited() {
    let mut item = Item::Struct {
        node: private(vec![exclude(1)]),
        fields: Fields::Named(vec![private(vec![exclude(2), exclude(3)])]),
    };
    assert_eq!(explore_item(&mut item, false), Ok(()));
    assert_eq!(
        item,
        Item::Struct {
            node: private(vec![]),
            fields: Fields::Named(vec![private(vec![exclude(2), exclude(3)])]),
        }
    );
}

#[test]
fn kinds_without_visibility_are_untouched() {
    for make in [|| Item::ExternCrate, || Item::Use, || Item::Macro, || Item::Verbatim] {
        let mut item = make();
        assert_eq!(explore_item(&mut item, true), Ok(()));
        assert_eq!(item, make());
    }
}

#[test]
fn rewriting_twice_changes_nothing_more() {
    let make = || Item::Mod {
        node: private(vec![other("doc", 1)]),
        content: Some(vec![
            Item::Union { node: private(vec![]), fields: vec![private(vec![])] },
            Item::Impl { attrs: vec![], of_trait: false, items: vec![ImplItem::Type(private(vec![]))] },
        ]),
    };
    let mut once = make();
    assert_eq!(explore_item(&mut once, true), Ok(()));
    let mut twice = make();
    assert_eq!(explore_item(&mut twice, true), Ok(()));
    assert_eq!(explore_item(&mut twice, true), Ok(()));
    assert_eq!(once, twice);
}

#[test]
fn classify_marker_decides_on_the_identifier() {
    assert_eq!(classify_marker(Some("exclude".to_string()), false, 4), Ok(true));
    assert_eq!(
        classify_marker(Some("exclude".to_string()), true, 4),
        Err(RewriteError::DuplicateMarker { origin: 4 })
    );
    assert_eq!(
        classify_marker(Some("other".to_string()), true, 5),
        Err(RewriteError::UnknownMarkerArgument { origin: 5, arg: "other".to_string() })
    );
    assert_eq!(classify_marker(None, false, 6), Err(RewriteError::MalformedMarker { origin: 6 }));
}

#[test]
fn non_ascii_marker_argument_fails() {
    let mut item = Item::Fn(private(vec![marker("e\u{301}xclude", 1)]));
    assert!(explore_item(&mut item, false).is_err());
}
