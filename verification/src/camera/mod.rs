pub mod rtsp_session;
