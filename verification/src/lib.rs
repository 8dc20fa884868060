//! Building blocks of a small game engine, each with a verified contract:
//! vector and matrix arithmetic, flow-field navigation, a chunked voxel
//! world and the chunk cube around the viewer, tile maps, OBJ statements
//! and triangle walks, packet framing, window input queues, per-frame
//! command queues, replay buffers, a frame buffer with depth test, an
//! overlay of labels and a cursor, and mesh preparation for flat shading.

pub mod vec;
pub mod matrix;
pub mod navigation;
pub mod world;
pub mod chunks;
pub mod text;
pub mod tiles;
pub mod heightmap;
pub mod packet;
pub mod obj;
pub mod mesh;
pub mod commands;
pub mod window;
pub mod windowing;
pub mod eventqueue;
pub mod inputhandler;
pub mod commandqueue;
pub mod command_queue;
pub mod client;
pub mod recording;
pub mod simulation;
pub mod selection;
pub mod canvas;
pub mod widgets;
pub mod ui;
pub mod graph;
pub mod graphics;
