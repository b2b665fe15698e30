use next_api::reference::{EndpointRef, PendingEndpoint, ResolvedEndpoint};
use next_api::route::{AppPageRoute, Route};
use next_api::table::Routes;

fn page(id: u64) -> Route {
    Route::PageApi { endpoint: ResolvedEndpoint { id } }
}

fn app_entry(name: &str, html: u64, rsc: u64) -> AppPageRoute {
    AppPageRoute {
        original_name: name.to_string(),
        html_endpoint: EndpointRef::Canonical(ResolvedEndpoint { id: html }),
        rsc_endpoint: EndpointRef::Canonical(ResolvedEndpoint { id: rsc }),
    }
}

#[test]
fn two_definitions_for_one_pathname_conflict() {
    let mut table = Routes::new();
    table.insert(
        "/foo".to_string(),
        Route::Page {
            html_endpoint: ResolvedEndpoint { id: 1 },
            data_endpoint: ResolvedEndpoint { id: 2 },
        },
    );
    table.insert("/foo".to_string(), Route::AppPage(vec![app_entry("app/foo/page", 3, 4)]));
    assert_eq!(table.len(), 1);
    assert!(matches!(table.get(&"/foo".to_string()), Some(Route::Conflict)));
}

#[test]
fn a_conflict_is_not_replaced_by_a_later_definition() {
    let mut table = Routes::new();
    table.insert("/foo".to_string(), page(1));
    table.insert("/foo".to_string(), page(2));
    table.insert("/foo".to_string(), page(3));
    assert_eq!(table.len(), 1);
    assert!(matches!(table.get(&"/foo".to_string()), Some(Route::Conflict)));
}

#[test]
fn two_equal_definitions_for_one_pathname_conflict_too() {
    let mut table = Routes::new();
    table.insert("/foo".to_string(), page(1));
    table.insert("/foo".to_string(), page(1));
    assert!(matches!(table.get(&"/foo".to_string()), Some(Route::Conflict)));
}

#[test]
fn a_conflict_leaves_the_other_pathnames_alone() {
    let mut table = Routes::new();
    table.insert("/a".to_string(), page(1));
    table.insert("/foo".to_string(), page(2));
    table.insert("/b".to_string(), page(3));
    table.insert("/foo".to_string(), page(4));
    assert_eq!(table.len(), 3);
    assert_eq!(table.get(&"/a".to_string()), Some(&page(1)));
    assert_eq!(table.get(&"/b".to_string()), Some(&page(3)));
    assert_eq!(table.get(&"/foo".to_string()), Some(&Route::Conflict));
}

#[test]
fn the_table_keeps_the_order_of_first_claims() {
    let mut table = Routes::new();
    table.insert("/b".to_string(), page(1));
    table.insert("/a".to_string(), page(2));
    table.insert("/c".to_string(), page(3));
    table.insert("/a".to_string(), page(4));
    let mut seen: Vec<String> = Vec::new();
    let mut i: usize = 0;
    while let Some((pathname, _)) = table.get_index(i) {
        seen.push(pathname.clone());
        i += 1;
    }
    assert_eq!(seen, vec!["/b".to_string(), "/a".to_string(), "/c".to_string()]);
    let (pathname, route) = table.get_index(1).unwrap();
    assert_eq!(pathname, "/a");
    assert_eq!(*route, Route::Conflict);
    assert!(table.get_index(3).is_none());
}

#[test]
fn an_empty_table_serves_nothing() {
    let table = Routes::new();
    assert_eq!(table.len(), 0);
    assert!(table.get(&"/".to_string()).is_none());
    assert!(table.get_index(0).is_none());
}

#[test]
fn a_pathname_is_found_by_its_whole_text() {
    let mut table = Routes::new();
    table.insert("/foo".to_string(), page(1));
    assert!(table.get(&"/fo".to_string()).is_none());
    assert!(table.get(&"/foo/".to_string()).is_none());
    assert!(table.get(&"foo".to_string()).is_none());
    assert_eq!(table.get(&"/foo".to_string()), Some(&page(1)));
}

#[test]
fn entries_are_equal_when_their_endpoints_are() {
    assert!(app_entry("a", 1, 2) == app_entry("b", 1, 2));
    assert!(app_entry("a", 1, 2) != app_entry("a", 1, 3));
    assert!(app_entry("a", 1, 2) != app_entry("a", 3, 2));
    let pending = AppPageRoute {
        original_name: "a".to_string(),
        html_endpoint: EndpointRef::Pending(PendingEndpoint { task: 1 }),
        rsc_endpoint: EndpointRef::Canonical(ResolvedEndpoint { id: 2 }),
    };
    assert!(app_entry("a", 1, 2) != pending);
    assert!(pending == pending.clone());
}

#[test]
fn routes_are_equal_by_kind_and_endpoints() {
    assert_eq!(page(1), page(1));
    assert_ne!(page(1), page(2));
    assert_ne!(
        page(1),
        Route::AppRoute { original_name: "x".to_string(), endpoint: ResolvedEndpoint { id: 1 } }
    );
    assert_eq!(
        Route::Page {
            html_endpoint: ResolvedEndpoint { id: 1 },
            data_endpoint: ResolvedEndpoint { id: 2 }
        },
        Route::Page {
            html_endpoint: ResolvedEndpoint { id: 1 },
            data_endpoint: ResolvedEndpoint { id: 2 }
        }
    );
    assert_ne!(
        Route::Page {
            html_endpoint: ResolvedEndpoint { id: 1 },
            data_endpoint: ResolvedEndpoint { id: 2 }
        },
        Route::Page {
            html_endpoint: ResolvedEndpoint { id: 2 },
            data_endpoint: ResolvedEndpoint { id: 1 }
        }
    );
    assert_eq!(Route::Conflict, Route::Conflict);
    assert_ne!(Route::Conflict, page(1));
}

#[test]
fn the_order_of_app_page_entries_counts() {
    let one = Route::AppPage(vec![app_entry("a", 1, 2), app_entry("b", 3, 4)]);
    let same = Route::AppPage(vec![app_entry("x", 1, 2), app_entry("y", 3, 4)]);
    let swapped = Route::AppPage(vec![app_entry("b", 3, 4), app_entry("a", 1, 2)]);
    let shorter = Route::AppPage(vec![app_entry("a", 1, 2)]);
    assert_eq!(one, same);
    assert_ne!(one, swapped);
    assert_ne!(one, shorter);
}

#[test]
fn the_name_of_an_app_route_counts() {
    let a = Route::AppRoute { original_name: "a".to_string(), endpoint: ResolvedEndpoint { id: 1 } };
    let b = Route::AppRoute { original_name: "b".to_string(), endpoint: ResolvedEndpoint { id: 1 } };
    assert_ne!(a, b);
    assert_eq!(a, a.clone());
}

#[test]
fn an_app_page_needs_an_entry() {
    assert!(Route::app_page(Vec::new()).is_none());
    let route = Route::app_page(vec![app_entry("a", 1, 2)]).unwrap();
    assert!(route.is_well_formed());
    assert_eq!(route, Route::AppPage(vec![app_entry("a", 1, 2)]));
    assert!(!Route::AppPage(Vec::new()).is_well_formed());
    assert!(Route::Conflict.is_well_formed());
    assert!(page(1).is_well_formed());
}

#[test]
fn a_clone_keeps_names_and_references() {
    let route = Route::AppPage(vec![
        AppPageRoute {
            original_name: "a".to_string(),
            html_endpoint: EndpointRef::Pending(PendingEndpoint { task: 5 }),
            rsc_endpoint: EndpointRef::Canonical(ResolvedEndpoint { id: 6 }),
        },
    ]);
    let copy = route.clone();
    match copy {
        Route::AppPage(entries) => {
            assert_eq!(entries.len(), 1);
            assert_eq!(entries[0].original_name, "a");
            assert!(matches!(
                entries[0].html_endpoint,
                EndpointRef::Pending(PendingEndpoint { task: 5 })
            ));
            assert_eq!(entries[0].rsc_endpoint.canonical(), Some(ResolvedEndpoint { id: 6 }));
        }
        _ => panic!("a clone is of the same kind"),
    }
}
