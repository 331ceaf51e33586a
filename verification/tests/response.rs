use timetrial::response::{ApiError, ApiResponse, BasicMessage};

#[test]
fn every_error_variant_maps_to_its_status_class() {
    assert_eq!(ApiError::BadRequest("b".to_string()).status_code(), 400);
    assert_eq!(ApiError::Unauthorized("u".to_string()).status_code(), 401);
    assert_eq!(ApiError::Forbidden("f".to_string()).status_code(), 403);
    assert_eq!(ApiError::NotFound("n".to_string()).status_code(), 404);
    assert_eq!(ApiError::InternalServerError("i".to_string()).status_code(), 500);
}

#[test]
fn errors_carry_their_message() {
    let e = ApiError::NotFound("Cup not found".to_string());
    assert_eq!(e.message(), "Cup not found");
}

#[test]
fn every_success_variant_maps_to_its_status_class() {
    assert_eq!(ApiResponse::<BasicMessage>::OK.status_code(), 200);
    assert_eq!(ApiResponse::<BasicMessage>::Created.status_code(), 201);
    let data = ApiResponse::JsonData(BasicMessage { msg: "Hello World!".to_string() });
    assert_eq!(data.status_code(), 200);
}
