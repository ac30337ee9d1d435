use vio_api::objects::market::helper::MarketError;
use vio_api::objects::market::market::{Market, MixedMarket};
use vio_api::routes::apiv1::{
    insert_data_check, latest_market_reply, latest_market_request, recent_market_reply, recent_market_request,
    split_items, RouteError,
};
use vio_api::routes::errors::catch_status;
use vio_api::routes::key::ApiKey;
use vio_api::table::StringMap;

#[test]
fn split_items_splits_on_commas() {
    assert_eq!(split_items("Sword,Shield,Bow"), vec!["Sword", "Shield", "Bow"]);
    assert_eq!(split_items("Sword"), vec!["Sword"]);
    assert_eq!(split_items(""), vec![""]);
    assert_eq!(split_items("a,,b,"), vec!["a", "", "b", ""]);
    assert_eq!(split_items(","), vec!["", ""]);
    // Joining the pieces gives back the text.
    for s in ["x,y", "", ",a,", "héllo,wörld"] {
        assert_eq!(split_items(s).join(","), s);
    }
}

#[test]
fn latest_market_without_items_is_not_found() {
    assert_eq!(latest_market_request(None).err(), Some(RouteError::NotFound));
    assert_eq!(latest_market_request(Some("a,b")).ok().unwrap(), vec!["a", "b"]);
    let r = latest_market_reply(Err(MarketError::BadItem));
    assert_eq!(r.err(), Some(RouteError::NotFound));
    let r = latest_market_reply::<MarketError>(Ok(MixedMarket { items: StringMap::new() }));
    assert_eq!(r.ok().unwrap().items.len(), 0);
}

#[test]
fn recent_market_requests() {
    assert!(recent_market_request(None).is_none());
    assert_eq!(recent_market_request(Some("a")).unwrap(), vec!["a"]);
    assert_eq!(recent_market_reply(None).err(), Some(RouteError::NotFound));
    let m = Market { d: 3, time_scanned: 10, items: StringMap::new() };
    assert_eq!(recent_market_reply(Some(m)).ok().unwrap().d, 3);
}

#[test]
fn only_the_admin_inserts_data() {
    assert!(insert_data_check(&ApiKey("admin".to_string()), "admin").is_ok());
    assert_eq!(insert_data_check(&ApiKey("k".to_string()), "admin").err(), Some(RouteError::Unauthorized));
}

#[test]
fn route_errors_have_catchers() {
    for e in [RouteError::BadRequest, RouteError::Unauthorized, RouteError::NotFound] {
        let code = e.status_code();
        assert_eq!(catch_status(code).unwrap().http_status_code, code);
    }
    assert_eq!(RouteError::BadRequest.status_code(), 400);
    assert_eq!(RouteError::Unauthorized.status_code(), 401);
    assert_eq!(RouteError::NotFound.status_code(), 404);
}
